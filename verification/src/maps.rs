//! The hash tables of the consumer-side tree. Each table holds a
//! `hashbrown` map or set; what it holds is named by a specification
//! function, and each method states over that name what the `hashbrown`
//! method does to it. These statements are trusted, not proved: they follow
//! the documentation of `hashbrown`'s `HashMap` and `HashSet`.

use vstd::prelude::*;

use crate::ids::{
    key_node, node_key, subtree_view, FullNodeId, NodeState, NodeStateView, ParentAndIndex,
    SubtreeState,
};

verus! {

/// The stored nodes of a tree, by node key.
#[verifier::external_body]
pub struct NodeTable {
    inner: hashbrown::HashMap<(u64, u32), NodeState>,
}

/// What a [`NodeTable`] holds.
pub uninterp spec fn node_table_contents(t: NodeTable) -> Map<(u64, u32), NodeStateView>;

impl View for NodeTable {
    type V = Map<(u64, u32), NodeStateView>;

    open spec fn view(&self) -> Map<(u64, u32), NodeStateView> {
        node_table_contents(*self)
    }
}

impl NodeTable {
    /// `hashbrown::HashMap::new`: an empty table.
    #[verifier::external_body]
    pub fn new() -> (r: NodeTable)
        ensures
            node_table_contents(r).dom() == Set::<(u64, u32)>::empty(),
    {
        NodeTable { inner: hashbrown::HashMap::new() }
    }

    /// `hashbrown::HashMap::get`: the node stored under `k`, if any.
    #[verifier::external_body]
    pub fn get(&self, k: (u64, u32)) -> (r: Option<&NodeState>)
        ensures
            r is Some <==> node_table_contents(*self).contains_key(k),
            r is Some ==> r.unwrap()@ == node_table_contents(*self)[k],
    {
        self.inner.get(&k)
    }

    /// `hashbrown::HashMap::contains_key`.
    #[verifier::external_body]
    pub fn contains_key(&self, k: (u64, u32)) -> (r: bool)
        ensures
            r == node_table_contents(*self).contains_key(k),
    {
        self.inner.contains_key(&k)
    }

    /// `hashbrown::HashMap::insert`: stores `v` under `k`, replacing what
    /// was there.
    #[verifier::external_body]
    pub fn insert(&mut self, k: (u64, u32), v: NodeState)
        ensures
            node_table_contents(*final(self)) == node_table_contents(*old(self)).insert(k, v@),
    {
        self.inner.insert(k, v);
    }

    /// `hashbrown::HashMap::remove`: takes out the node stored under `k`.
    #[verifier::external_body]
    pub fn remove(&mut self, k: (u64, u32)) -> (r: Option<NodeState>)
        ensures
            node_table_contents(*final(self)) == node_table_contents(*old(self)).remove(k),
            r is Some <==> node_table_contents(*old(self)).contains_key(k),
            r is Some ==> r.unwrap()@ == node_table_contents(*old(self))[k],
    {
        self.inner.remove(&k)
    }

    /// `hashbrown::HashMap::is_empty`.
    #[verifier::external_body]
    pub fn is_empty(&self) -> (r: bool)
        ensures
            r == (node_table_contents(*self).dom() == Set::<(u64, u32)>::empty()),
    {
        self.inner.is_empty()
    }

    /// `hashbrown::HashMap::len`.
    #[verifier::external_body]
    pub fn len(&self) -> (r: usize)
        ensures
            r == node_table_contents(*self).dom().len(),
    {
        self.inner.len()
    }

    /// `hashbrown::HashMap::keys`, collected: every key once, in the
    /// table's own order, which is left open.
    #[verifier::external_body]
    pub fn keys(&self) -> (r: Vec<(u64, u32)>)
        ensures
            r@.no_duplicates(),
            forall|k: (u64, u32)| #[trigger] r@.contains(k) <==> node_table_contents(*self).contains_key(k),
    {
        self.inner.keys().copied().collect()
    }
}

/// Parent links waiting for their child node, by child key.
#[verifier::external_body]
pub struct ParentTable {
    inner: hashbrown::HashMap<(u64, u32), ParentAndIndex>,
}

/// What a [`ParentTable`] holds.
pub uninterp spec fn parent_table_contents(t: ParentTable) -> Map<(u64, u32), ((u64, u32), usize)>;

impl View for ParentTable {
    type V = Map<(u64, u32), ((u64, u32), usize)>;

    open spec fn view(&self) -> Map<(u64, u32), ((u64, u32), usize)> {
        parent_table_contents(*self)
    }
}

impl ParentTable {
    /// `hashbrown::HashMap::new`: an empty table.
    #[verifier::external_body]
    pub fn new() -> (r: ParentTable)
        ensures
            parent_table_contents(r).dom() == Set::<(u64, u32)>::empty(),
    {
        ParentTable { inner: hashbrown::HashMap::new() }
    }

    /// `hashbrown::HashMap::insert`.
    #[verifier::external_body]
    pub fn insert(&mut self, k: (u64, u32), v: ParentAndIndex)
        ensures
            parent_table_contents(*final(self)) == parent_table_contents(*old(self)).insert(k, (node_key(v.0), v.1)),
    {
        self.inner.insert(k, v);
    }

    /// `hashbrown::HashMap::remove`.
    #[verifier::external_body]
    pub fn remove(&mut self, k: (u64, u32)) -> (r: Option<ParentAndIndex>)
        ensures
            parent_table_contents(*final(self)) == parent_table_contents(*old(self)).remove(k),
            r is Some <==> parent_table_contents(*old(self)).contains_key(k),
            r is Some ==> (node_key(r.unwrap().0), r.unwrap().1) == parent_table_contents(*old(self))[k],
    {
        self.inner.remove(&k)
    }

    /// `hashbrown::HashMap::is_empty`.
    #[verifier::external_body]
    pub fn is_empty(&self) -> (r: bool)
        ensures
            r == (parent_table_contents(*self).dom() == Set::<(u64, u32)>::empty()),
    {
        self.inner.is_empty()
    }
}

/// A set of node keys.
#[verifier::external_body]
pub struct NodeKeySet {
    inner: hashbrown::HashSet<(u64, u32)>,
}

/// What a [`NodeKeySet`] holds.
pub uninterp spec fn node_key_set_contents(t: NodeKeySet) -> Set<(u64, u32)>;

impl View for NodeKeySet {
    type V = Set<(u64, u32)>;

    open spec fn view(&self) -> Set<(u64, u32)> {
        node_key_set_contents(*self)
    }
}

impl NodeKeySet {
    /// `hashbrown::HashSet::new`: an empty set.
    #[verifier::external_body]
    pub fn new() -> (r: NodeKeySet)
        ensures
            node_key_set_contents(r) == Set::<(u64, u32)>::empty(),
    {
        NodeKeySet { inner: hashbrown::HashSet::new() }
    }

    /// `hashbrown::HashSet::insert`: whether `k` was new.
    #[verifier::external_body]
    pub fn insert(&mut self, k: (u64, u32)) -> (r: bool)
        ensures
            node_key_set_contents(*final(self)) == node_key_set_contents(*old(self)).insert(k),
            r == !node_key_set_contents(*old(self)).contains(k),
    {
        self.inner.insert(k)
    }

    /// `hashbrown::HashSet::remove`: whether `k` was there.
    #[verifier::external_body]
    pub fn remove(&mut self, k: (u64, u32)) -> (r: bool)
        ensures
            node_key_set_contents(*final(self)) == node_key_set_contents(*old(self)).remove(k),
            r == node_key_set_contents(*old(self)).contains(k),
    {
        self.inner.remove(&k)
    }

    /// `hashbrown::HashSet::contains`.
    #[verifier::external_body]
    pub fn contains(&self, k: (u64, u32)) -> (r: bool)
        ensures
            r == node_key_set_contents(*self).contains(k),
    {
        self.inner.contains(&k)
    }

    /// `hashbrown::HashSet::is_empty`.
    #[verifier::external_body]
    pub fn is_empty(&self) -> (r: bool)
        ensures
            r == (node_key_set_contents(*self) == Set::<(u64, u32)>::empty()),
    {
        self.inner.is_empty()
    }

    /// `hashbrown::HashSet::iter`, collected: every member once, in the
    /// set's own order, which is left open.
    #[verifier::external_body]
    pub fn to_vec(&self) -> (r: Vec<(u64, u32)>)
        ensures
            r@.no_duplicates(),
            forall|k: (u64, u32)| #[trigger] r@.contains(k) <==> node_key_set_contents(*self).contains(k),
    {
        self.inner.iter().copied().collect()
    }
}

/// A set of tree identifiers, by their numeric value.
#[verifier::external_body]
pub struct TreeIdSet {
    inner: hashbrown::HashSet<u128>,
}

/// What a [`TreeIdSet`] holds.
pub uninterp spec fn tree_id_set_contents(t: TreeIdSet) -> Set<u128>;

impl View for TreeIdSet {
    type V = Set<u128>;

    open spec fn view(&self) -> Set<u128> {
        tree_id_set_contents(*self)
    }
}

impl TreeIdSet {
    /// `hashbrown::HashSet::new`: an empty set.
    #[verifier::external_body]
    pub fn new() -> (r: TreeIdSet)
        ensures
            tree_id_set_contents(r) == Set::<u128>::empty(),
    {
        TreeIdSet { inner: hashbrown::HashSet::new() }
    }

    /// `hashbrown::HashSet::insert`: whether `k` was new.
    #[verifier::external_body]
    pub fn insert(&mut self, k: u128) -> (r: bool)
        ensures
            tree_id_set_contents(*final(self)) == tree_id_set_contents(*old(self)).insert(k),
            r == !tree_id_set_contents(*old(self)).contains(k),
    {
        self.inner.insert(k)
    }

    /// `hashbrown::HashSet::iter`, collected: every member once, in the
    /// set's own order, which is left open.
    #[verifier::external_body]
    pub fn to_vec(&self) -> (r: Vec<u128>)
        ensures
            r@.no_duplicates(),
            forall|k: u128| #[trigger] r@.contains(k) <==> tree_id_set_contents(*self).contains(k),
    {
        self.inner.iter().copied().collect()
    }
}

/// Graft nodes, by the numeric value of the subtree they graft in.
#[verifier::external_body]
pub struct GraftTable {
    inner: hashbrown::HashMap<u128, FullNodeId>,
}

/// What a [`GraftTable`] holds.
pub uninterp spec fn graft_table_contents(t: GraftTable) -> Map<u128, (u64, u32)>;

impl View for GraftTable {
    type V = Map<u128, (u64, u32)>;

    open spec fn view(&self) -> Map<u128, (u64, u32)> {
        graft_table_contents(*self)
    }
}

impl GraftTable {
    /// `hashbrown::HashMap::new`: an empty table.
    #[verifier::external_body]
    pub fn new() -> (r: GraftTable)
        ensures
            graft_table_contents(r).dom() == Set::<u128>::empty(),
    {
        GraftTable { inner: hashbrown::HashMap::new() }
    }

    /// `hashbrown::HashMap::get`, copied out.
    #[verifier::external_body]
    pub fn get(&self, k: u128) -> (r: Option<FullNodeId>)
        ensures
            r is Some <==> graft_table_contents(*self).contains_key(k),
            r is Some ==> r.unwrap() == key_node(graft_table_contents(*self)[k]),
    {
        self.inner.get(&k).copied()
    }

    /// `hashbrown::HashMap::contains_key`.
    #[verifier::external_body]
    pub fn contains_key(&self, k: u128) -> (r: bool)
        ensures
            r == graft_table_contents(*self).contains_key(k),
    {
        self.inner.contains_key(&k)
    }

    /// `hashbrown::HashMap::insert`.
    #[verifier::external_body]
    pub fn insert(&mut self, k: u128, v: FullNodeId)
        ensures
            graft_table_contents(*final(self)) == graft_table_contents(*old(self)).insert(k, node_key(v)),
    {
        self.inner.insert(k, v);
    }

    /// `hashbrown::HashMap::remove`.
    #[verifier::external_body]
    pub fn remove(&mut self, k: u128) -> (r: Option<FullNodeId>)
        ensures
            graft_table_contents(*final(self)) == graft_table_contents(*old(self)).remove(k),
            r is Some <==> graft_table_contents(*old(self)).contains_key(k),
            r is Some ==> r.unwrap() == key_node(graft_table_contents(*old(self))[k]),
    {
        self.inner.remove(&k)
    }

    /// `hashbrown::HashMap::iter`, collected: every entry once, in the
    /// table's own order, which is left open.
    #[verifier::external_body]
    pub fn entries(&self) -> (r: Vec<(u128, FullNodeId)>)
        ensures
            r@.len() == graft_table_contents(*self).dom().len(),
            forall|i: int, j: int| 0 <= i < j < r@.len() ==> #[trigger] r@[i].0 != #[trigger] r@[j].0,
            forall|i: int| 0 <= i < r@.len() ==> graft_table_contents(*self).contains_key(#[trigger] r@[i].0)
                && node_key(r@[i].1) == graft_table_contents(*self)[r@[i].0],
            forall|k: u128| graft_table_contents(*self).contains_key(k) ==> exists|i: int| 0 <= i < r@.len() && #[trigger] r@[i].0 == k,
    {
        self.inner.iter().map(|(k, v)| (*k, *v)).collect()
    }

    /// `Clone::clone` of the `hashbrown::HashMap`: the same entries.
    #[verifier::external_body]
    pub fn duplicate(&self) -> (r: GraftTable)
        ensures
            r@ == graft_table_contents(*self),
    {
        GraftTable { inner: self.inner.clone() }
    }
}

/// The root and focus of each tree, by the numeric value of its identifier.
#[verifier::external_body]
pub struct SubtreeTable {
    inner: hashbrown::HashMap<u128, SubtreeState>,
}

/// What a [`SubtreeTable`] holds.
pub uninterp spec fn subtree_table_contents(t: SubtreeTable) -> Map<u128, ((u64, u32), (u64, u32))>;

impl View for SubtreeTable {
    type V = Map<u128, ((u64, u32), (u64, u32))>;

    open spec fn view(&self) -> Map<u128, ((u64, u32), (u64, u32))> {
        subtree_table_contents(*self)
    }
}

impl SubtreeTable {
    /// `hashbrown::HashMap::new`: an empty table.
    #[verifier::external_body]
    pub fn new() -> (r: SubtreeTable)
        ensures
            subtree_table_contents(r).dom() == Set::<u128>::empty(),
    {
        SubtreeTable { inner: hashbrown::HashMap::new() }
    }

    /// `hashbrown::HashMap::get`, copied out.
    #[verifier::external_body]
    pub fn get(&self, k: u128) -> (r: Option<SubtreeState>)
        ensures
            r is Some <==> subtree_table_contents(*self).contains_key(k),
            r is Some ==> subtree_view(r.unwrap()) == subtree_table_contents(*self)[k],
    {
        self.inner.get(&k).copied()
    }

    /// `hashbrown::HashMap::contains_key`.
    #[verifier::external_body]
    pub fn contains_key(&self, k: u128) -> (r: bool)
        ensures
            r == subtree_table_contents(*self).contains_key(k),
    {
        self.inner.contains_key(&k)
    }

    /// `hashbrown::HashMap::insert`.
    #[verifier::external_body]
    pub fn insert(&mut self, k: u128, v: SubtreeState)
        ensures
            subtree_table_contents(*final(self)) == subtree_table_contents(*old(self)).insert(k, subtree_view(v)),
    {
        self.inner.insert(k, v);
    }

    /// `hashbrown::HashMap::remove`.
    #[verifier::external_body]
    pub fn remove(&mut self, k: u128) -> (r: Option<SubtreeState>)
        ensures
            subtree_table_contents(*final(self)) == subtree_table_contents(*old(self)).remove(k),
            r is Some <==> subtree_table_contents(*old(self)).contains_key(k),
            r is Some ==> subtree_view(r.unwrap()) == subtree_table_contents(*old(self))[k],
    {
        self.inner.remove(&k)
    }

    /// `hashbrown::HashMap::len`.
    #[verifier::external_body]
    pub fn len(&self) -> (r: usize)
        ensures
            r == subtree_table_contents(*self).dom().len(),
    {
        self.inner.len()
    }

    /// `Clone::clone` of the `hashbrown::HashMap`: the same entries.
    #[verifier::external_body]
    pub fn duplicate(&self) -> (r: SubtreeTable)
        ensures
            r@ == subtree_table_contents(*self),
    {
        SubtreeTable { inner: self.inner.clone() }
    }
}

/// Tree indices, by the numeric value of the tree identifier.
#[verifier::external_body]
pub struct IndexTable {
    inner: hashbrown::HashMap<u128, u32>,
}

/// What an [`IndexTable`] holds.
pub uninterp spec fn index_table_contents(t: IndexTable) -> Map<u128, u32>;

impl View for IndexTable {
    type V = Map<u128, u32>;

    open spec fn view(&self) -> Map<u128, u32> {
        index_table_contents(*self)
    }
}

impl IndexTable {
    /// `hashbrown::HashMap::new`: an empty table.
    #[verifier::external_body]
    pub fn new() -> (r: IndexTable)
        ensures
            index_table_contents(r).dom() == Set::<u128>::empty(),
    {
        IndexTable { inner: hashbrown::HashMap::new() }
    }

    /// `hashbrown::HashMap::get`, copied out.
    #[verifier::external_body]
    pub fn get(&self, k: u128) -> (r: Option<u32>)
        ensures
            r is Some <==> index_table_contents(*self).contains_key(k),
            r is Some ==> r.unwrap() == index_table_contents(*self)[k],
    {
        self.inner.get(&k).copied()
    }

    /// `hashbrown::HashMap::insert`.
    #[verifier::external_body]
    pub fn insert(&mut self, k: u128, v: u32)
        ensures
            index_table_contents(*final(self)) == index_table_contents(*old(self)).insert(k, v),
    {
        self.inner.insert(k, v);
    }

    /// `Clone::clone` of the `hashbrown::HashMap`: the same entries.
    #[verifier::external_body]
    pub fn duplicate(&self) -> (r: IndexTable)
        ensures
            r@ == index_table_contents(*self),
    {
        IndexTable { inner: self.inner.clone() }
    }
}

/// Tree identifiers (their numeric values), by tree index.
#[verifier::external_body]
pub struct TreeIdTable {
    inner: hashbrown::HashMap<u32, u128>,
}

/// What a [`TreeIdTable`] holds.
pub uninterp spec fn tree_id_table_contents(t: TreeIdTable) -> Map<u32, u128>;

impl View for TreeIdTable {
    type V = Map<u32, u128>;

    open spec fn view(&self) -> Map<u32, u128> {
        tree_id_table_contents(*self)
    }
}

impl TreeIdTable {
    /// `hashbrown::HashMap::new`: an empty table.
    #[verifier::external_body]
    pub fn new() -> (r: TreeIdTable)
        ensures
            tree_id_table_contents(r).dom() == Set::<u32>::empty(),
    {
        TreeIdTable { inner: hashbrown::HashMap::new() }
    }

    /// `hashbrown::HashMap::get`, copied out.
    #[verifier::external_body]
    pub fn get(&self, k: u32) -> (r: Option<u128>)
        ensures
            r is Some <==> tree_id_table_contents(*self).contains_key(k),
            r is Some ==> r.unwrap() == tree_id_table_contents(*self)[k],
    {
        self.inner.get(&k).copied()
    }

    /// `hashbrown::HashMap::insert`.
    #[verifier::external_body]
    pub fn insert(&mut self, k: u32, v: u128)
        ensures
            tree_id_table_contents(*final(self)) == tree_id_table_contents(*old(self)).insert(k, v),
    {
        self.inner.insert(k, v);
    }

    /// `Clone::clone` of the `hashbrown::HashMap`: the same entries.
    #[verifier::external_body]
    pub fn duplicate(&self) -> (r: TreeIdTable)
        ensures
            r@ == tree_id_table_contents(*self),
    {
        TreeIdTable { inner: self.inner.clone() }
    }
}

} // verus!
