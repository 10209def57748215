//! Identities and per-node bookkeeping of the consumer-side tree: a node is
//! named by its local identifier together with the index of the tree (root
//! tree or grafted subtree) that it belongs to.

use vstd::prelude::*;

use crate::schema::{Node, NodeId, NodeView};

verus! {

/// A small number that stands for a [`TreeId`](crate::schema::TreeId)
/// within one consumer tree.
#[derive(Clone, Copy, Debug, PartialEq, Eq, Structural, PartialOrd, Ord, Hash)]
pub struct TreeIndex(pub u32);

/// A node identifier that is unique across the root tree and all of its
/// grafted subtrees: the node's local identifier and its tree's index.
#[derive(Clone, Copy, Debug, PartialEq, Eq, Structural, Hash)]
pub struct FullNodeId {
    pub local: NodeId,
    pub tree_index: TreeIndex,
}

/// The plain key of a node in the consumer's tables.
pub open spec fn node_key(id: FullNodeId) -> (u64, u32) {
    (id.local.0, id.tree_index.0)
}

/// The node identifier that a plain key stands for.
pub open spec fn key_node(k: (u64, u32)) -> FullNodeId {
    FullNodeId { local: NodeId(k.0), tree_index: TreeIndex(k.1) }
}

impl FullNodeId {
    pub fn new(local: NodeId, tree_index: TreeIndex) -> (r: FullNodeId)
        ensures
            r.local == local,
            r.tree_index == tree_index,
    {
        FullNodeId { local, tree_index }
    }

    /// The local identifier and the tree index.
    pub fn to_components(self) -> (r: (NodeId, TreeIndex))
        ensures
            r == (self.local, self.tree_index),
    {
        (self.local, self.tree_index)
    }

    /// The node with local identifier `local` in the same tree as `self`.
    pub fn with_same_tree(self, local: NodeId) -> (r: FullNodeId)
        ensures
            r.local == local,
            r.tree_index == self.tree_index,
    {
        FullNodeId { local, tree_index: self.tree_index }
    }

    /// The plain key of this identifier.
    pub fn as_key(self) -> (r: (u64, u32))
        ensures
            r == node_key(self),
    {
        (self.local.0, self.tree_index.0)
    }

    /// The identifier that a plain key stands for.
    pub fn from_key(k: (u64, u32)) -> (r: FullNodeId)
        ensures
            r == key_node(k),
            node_key(r) == k,
    {
        FullNodeId { local: NodeId(k.0), tree_index: TreeIndex(k.1) }
    }
}

/// Keys and identifiers correspond one to one.
pub proof fn lemma_key_roundtrip(id: FullNodeId)
    ensures
        key_node(node_key(id)) == id,
{
}

/// A node's parent and the node's position among the parent's children.
#[derive(Clone, Copy, Debug, PartialEq, Eq, Structural)]
pub struct ParentAndIndex(pub FullNodeId, pub usize);

/// The abstract value of a parent link.
pub open spec fn parent_view(p: Option<ParentAndIndex>) -> Option<((u64, u32), usize)> {
    match p {
        Some(ParentAndIndex(id, i)) => Some((node_key(id), i)),
        None => None,
    }
}

/// What the consumer stores for each node: its parent link and its data.
#[derive(Debug)]
pub struct NodeState {
    pub parent_and_index: Option<ParentAndIndex>,
    pub data: Node,
}

/// The abstract value of a stored node.
pub struct NodeStateView {
    pub parent: Option<((u64, u32), usize)>,
    pub data: NodeView,
}

impl View for NodeState {
    type V = NodeStateView;

    open spec fn view(&self) -> NodeStateView {
        NodeStateView { parent: parent_view(self.parent_and_index), data: self.data@ }
    }
}

impl NodeState {
    /// A copy of the stored node.
    pub fn duplicate(&self) -> (r: NodeState)
        ensures
            r@ == self@,
    {
        NodeState { parent_and_index: self.parent_and_index, data: self.data.duplicate() }
    }
}

/// The root and the current focus of one tree (root tree or subtree).
#[derive(Clone, Copy, Debug, PartialEq, Eq, Structural)]
pub struct SubtreeState {
    pub root: FullNodeId,
    pub focus: FullNodeId,
}

/// The abstract value of a subtree record.
pub open spec fn subtree_view(s: SubtreeState) -> ((u64, u32), (u64, u32)) {
    (node_key(s.root), node_key(s.focus))
}

/// The subtree record that an abstract value stands for.
pub open spec fn view_subtree(v: ((u64, u32), (u64, u32))) -> SubtreeState {
    SubtreeState { root: key_node(v.0), focus: key_node(v.1) }
}

} // verus!
