//! The consumer-side accessibility tree: the state that a platform adapter
//! keeps, built from an initial [`TreeUpdate`] and brought forward by each
//! later one. The root tree may have subtrees grafted into it; every node is
//! named by its local identifier and the index of its tree.

use vstd::prelude::*;

use crate::ids::{
    key_node, node_key, subtree_view, FullNodeId, NodeState, NodeStateView, ParentAndIndex,
    SubtreeState, TreeIndex,
};
use crate::maps::{
    GraftTable, IndexTable, NodeKeySet, NodeTable, ParentTable, SubtreeTable, TreeIdSet,
    TreeIdTable,
};
use crate::roles::Role;
use crate::schema::{
    node_id_value, Node, NodeId, NodeView, Tree as TreeInfo, TreeId, TreeUpdate, TreeView,
    PROP_ACTIVE_DESCENDANT,
};

verus! {

/// Assigns each tree identifier a small index, in the order in which the
/// identifiers are first seen, and finds either from the other.
pub struct TreeIndexMap {
    id_to_index: IndexTable,
    index_to_id: TreeIdTable,
    next: u32,
}

impl TreeIndexMap {
    /// Index of each known tree identifier.
    pub closed spec fn index_of(&self) -> Map<u128, u32> {
        self.id_to_index@
    }

    /// Tree identifier of each assigned index.
    pub closed spec fn id_of(&self) -> Map<u32, u128> {
        self.index_to_id@
    }

    /// The index that the next new identifier gets.
    pub closed spec fn next_index(&self) -> u32 {
        self.next
    }

    /// The indices `0 .. next` are assigned, each to exactly one
    /// identifier, and the two tables are inverse to each other.
    pub open spec fn wf(&self) -> bool {
        &&& forall|i: u32| #[trigger] self.id_of().contains_key(i) <==> i < self.next_index()
        &&& forall|t: u128| #[trigger] self.index_of().contains_key(t) ==> {
            &&& self.index_of()[t] < self.next_index()
            &&& self.id_of()[self.index_of()[t]] == t
        }
        &&& forall|i: u32| #[trigger] self.id_of().contains_key(i) ==> {
            &&& self.index_of().contains_key(self.id_of()[i])
            &&& self.index_of()[self.id_of()[i]] == i
        }
    }

    /// An empty map: no identifier known, the first index is 0.
    pub fn new() -> (r: TreeIndexMap)
        ensures
            r.wf(),
            r.index_of() == Map::<u128, u32>::empty(),
            r.id_of() == Map::<u32, u128>::empty(),
            r.next_index() == 0,
    {
        let r = TreeIndexMap { id_to_index: IndexTable::new(), index_to_id: TreeIdTable::new(), next: 0 };
        assert(r.index_of() =~= Map::<u128, u32>::empty());
        assert(r.id_of() =~= Map::<u32, u128>::empty());
        r
    }

    /// The index of `id`, assigning the next free one if `id` is new.
    pub fn get_or_create_index(&mut self, id: TreeId) -> (r: TreeIndex)
        requires
            old(self).wf(),
            old(self).index_of().contains_key(id.0) || old(self).next_index() < u32::MAX,
        ensures
            final(self).wf(),
            old(self).index_of().contains_key(id.0) ==> {
                &&& r.0 == old(self).index_of()[id.0]
                &&& final(self).index_of() == old(self).index_of()
                &&& final(self).id_of() == old(self).id_of()
                &&& final(self).next_index() == old(self).next_index()
            },
            !old(self).index_of().contains_key(id.0) ==> {
                &&& r.0 == old(self).next_index()
                &&& final(self).index_of() == old(self).index_of().insert(id.0, r.0)
                &&& final(self).id_of() == old(self).id_of().insert(r.0, id.0)
                &&& final(self).next_index() == old(self).next_index() + 1
            },
    {
        match self.id_to_index.get(id.0) {
            Some(i) => TreeIndex(i),
            None => {
                let i = self.next;
                self.next = self.next + 1;
                self.index_to_id.insert(i, id.0);
                self.id_to_index.insert(id.0, i);
                let ghost s = *self;
                assert forall|j: u32| #[trigger] s.id_of().contains_key(j) <==> j < s.next_index() by {
                    if j != i {
                        assert(old(self).id_of().contains_key(j) <==> j < old(self).next_index());
                    }
                }
                assert forall|t: u128| #[trigger] s.index_of().contains_key(t) implies {
                    &&& s.index_of()[t] < s.next_index()
                    &&& s.id_of()[s.index_of()[t]] == t
                } by {
                    if t != id.0 {
                        assert(old(self).index_of().contains_key(t));
                    }
                }
                assert forall|j: u32| #[trigger] s.id_of().contains_key(j) implies {
                    &&& s.index_of().contains_key(s.id_of()[j])
                    &&& s.index_of()[s.id_of()[j]] == j
                } by {
                    if j != i {
                        assert(old(self).id_of().contains_key(j));
                    }
                }
                TreeIndex(i)
            },
        }
    }

    /// The index of `id`, if it has one; nothing is assigned.
    pub fn get_index(&self, id: TreeId) -> (r: Option<TreeIndex>)
        ensures
            r is Some <==> self.index_of().contains_key(id.0),
            r is Some ==> r.unwrap().0 == self.index_of()[id.0],
    {
        match self.id_to_index.get(id.0) {
            Some(i) => Some(TreeIndex(i)),
            None => None,
        }
    }

    /// The tree identifier that has index `index`, if any.
    pub fn get_id(&self, index: TreeIndex) -> (r: Option<TreeId>)
        ensures
            r is Some <==> self.id_of().contains_key(index.0),
            r is Some ==> r.unwrap().0 == self.id_of()[index.0],
    {
        match self.index_to_id.get(index.0) {
            Some(t) => Some(TreeId(t)),
            None => None,
        }
    }

    /// A copy of the map.
    pub fn duplicate(&self) -> (r: TreeIndexMap)
        ensures
            r.index_of() == self.index_of(),
            r.id_of() == self.id_of(),
            r.next_index() == self.next_index(),
    {
        TreeIndexMap {
            id_to_index: self.id_to_index.duplicate(),
            index_to_id: self.index_to_id.duplicate(),
            next: self.next,
        }
    }
}

/// Once an identifier has an index, asking again gives the same index and
/// leaves the map as it was; the identifier and the index find each other.
pub proof fn lemma_index_map_roundtrip(m: TreeIndexMap, t: u128)
    requires
        m.wf(),
        m.index_of().contains_key(t),
    ensures
        m.id_of().contains_key(m.index_of()[t]),
        m.id_of()[m.index_of()[t]] == t,
{
}

/// Why a tree update was not applied. Each is a way in which an update can
/// fail to fit the tree it is applied to.
#[derive(Clone, Copy, Debug, PartialEq, Eq, Structural)]
pub enum TreeError {
    /// No tree index is left for a new tree identifier.
    TooManyTrees,
    /// The update brings a subtree's tree data, but no graft node exists
    /// for that subtree.
    SubtreeWithoutGraft,
    /// The update is for a subtree that does not exist and brings no tree
    /// data.
    UnknownSubtree,
    /// A node would graft in the root tree.
    GraftOfRootTree,
    /// Two graft nodes claim the same subtree.
    DuplicateGraft,
    /// A graft node also has children of its own.
    GraftWithChildren,
    /// A child identifier appears twice among the update's nodes.
    DuplicateChild,
    /// Some nodes of the update are neither in the tree nor a child of
    /// another node of the update.
    UnattachedNodes,
    /// Some children are neither in the tree nor nodes of the update.
    MissingChildren,
    /// The focus is on a graft node whose subtree does not exist.
    FocusOnEmptyGraft,
    /// Following the focus through graft nodes comes back to a subtree that
    /// was already passed.
    FocusCycle,
    /// The root is not in the tree.
    RootNotInTree,
    /// The focus is not in the tree.
    FocusNotInTree,
    /// The first update of a tree brings no tree data.
    InitWithoutTree,
    /// The first update of a tree is for a subtree.
    InitWithSubtree,
    /// A recorded change names a node that is not where the change says:
    /// an added or updated node missing from the new state, or an updated
    /// or removed node missing from the old one.
    StaleChange,
}

/// The errors that applying the listed nodes of an update can end in.
pub open spec fn is_node_error(e: TreeError) -> bool {
    ||| e == TreeError::DuplicateChild
    ||| e == TreeError::GraftWithChildren
    ||| e == TreeError::GraftOfRootTree
    ||| e == TreeError::DuplicateGraft
    ||| e == TreeError::UnattachedNodes
    ||| e == TreeError::MissingChildren
}

/// The errors that applying an update to a tree state can end in.
pub open spec fn is_update_error(e: TreeError) -> bool {
    ||| is_node_error(e)
    ||| e == TreeError::TooManyTrees
    ||| e == TreeError::SubtreeWithoutGraft
    ||| e == TreeError::UnknownSubtree
    ||| e == TreeError::FocusOnEmptyGraft
    ||| e == TreeError::FocusCycle
    ||| e == TreeError::RootNotInTree
    ||| e == TreeError::FocusNotInTree
}

/// The abstract value of the nodes of an update, in order.
pub open spec fn entries_view(nodes: Seq<(NodeId, Node)>) -> Seq<(NodeId, NodeView)> {
    nodes.map_values(|p: (NodeId, Node)| (p.0, p.1@))
}

/// For each local identifier among the first `n` nodes of an update, the
/// data of its last occurrence there.
pub open spec fn latest_data(s: Seq<(NodeId, NodeView)>, n: nat) -> Map<u64, NodeView>
    decreases n,
{
    if n == 0 || n > s.len() {
        Map::empty()
    } else {
        latest_data(s, (n - 1) as nat).insert(s[n - 1].0.0, s[n - 1].1)
    }
}

/// A local identifier has data among the first `n` nodes of an update only
/// if one of them lists it.
proof fn lemma_latest_listed(s: Seq<(NodeId, NodeView)>, n: nat, local: u64)
    requires
        n <= s.len(),
        latest_data(s, n).contains_key(local),
    ensures
        listed_before(s, n as int, local),
    decreases n,
{
    if n > 0 {
        if s[n - 1].0.0 == local {
            assert(s[(n - 1) as int].0.0 == local);
        } else {
            lemma_latest_listed(s, (n - 1) as nat, local);
            let k = choose|k: int| 0 <= k < n - 1 && #[trigger] s[k].0.0 == local;
            assert(s[k].0.0 == local);
        }
    }
}

/// The children of the first `n` nodes of an update, one after another.
pub open spec fn flat_children(s: Seq<(NodeId, NodeView)>, n: nat) -> Seq<NodeId>
    decreases n,
{
    if n == 0 || n > s.len() {
        Seq::empty()
    } else {
        flat_children(s, (n - 1) as nat) + s[n - 1].1.children()
    }
}

/// Whether a node with local identifier `local` is among the first `i`
/// nodes of an update.
pub open spec fn listed_before(s: Seq<(NodeId, NodeView)>, i: int, local: u64) -> bool {
    exists|j: int| 0 <= j < i && #[trigger] s[j].0.0 == local
}

/// Whether the `j`-th node of an update is the first listing of its
/// identifier.
pub open spec fn first_listing(s: Seq<(NodeId, NodeView)>, j: int) -> bool {
    forall|k: int| 0 <= k < j ==> #[trigger] s[k].0 != s[j].0
}

/// Some node of the update is a graft node that also has children.
pub open spec fn lists_graft_with_children(s: Seq<(NodeId, NodeView)>) -> bool {
    exists|i: int| 0 <= i < s.len() && (#[trigger] s[i]).1.tree_id() is Some && s[i].1.children().len() > 0
}

/// Some node of the update grafts a subtree.
pub open spec fn lists_some_graft(s: Seq<(NodeId, NodeView)>) -> bool {
    exists|i: int| 0 <= i < s.len() && (#[trigger] s[i]).1.tree_id() is Some
}

/// Some node of the update names the root tree as the subtree it grafts.
pub open spec fn lists_root_graft(s: Seq<(NodeId, NodeView)>) -> bool {
    exists|i: int| 0 <= i < s.len() && (#[trigger] s[i]).1.tree_id() is Some && s[i].1.tree_id().unwrap().0 == 0
}

/// Some node of the update (in tree `index`, whose root has local
/// identifier `root`) was not stored before, is not the root, and is not a
/// child of any node of the update.
pub open spec fn lists_unattached(s: Seq<(NodeId, NodeView)>, old: Map<(u64, u32), NodeStateView>, index: u32, root: u64) -> bool {
    exists|i: int| 0 <= i < s.len() && !old.contains_key(((#[trigger] s[i]).0.0, index)) && s[i].0.0 != root
        && !flat_children(s, s.len()).contains(s[i].0)
}

/// Some child named by a node of the update (in tree `index`) was not
/// stored before and is not a node of the update.
pub open spec fn lists_missing_child(s: Seq<(NodeId, NodeView)>, old: Map<(u64, u32), NodeStateView>, index: u32) -> bool {
    exists|c: NodeId| #[trigger] flat_children(s, s.len()).contains(c) && !old.contains_key((c.0, index))
        && !listed_before(s, s.len() as int, c.0)
}

/// A local identifier that one of the first `n` nodes of an update has
/// is given data by them.
proof fn lemma_listed_latest(s: Seq<(NodeId, NodeView)>, n: nat, local: u64)
    requires
        n <= s.len(),
        listed_before(s, n as int, local),
    ensures
        latest_data(s, n).contains_key(local),
    decreases n,
{
    if n > 0 && s[n - 1].0.0 != local {
        let j = choose|j: int| 0 <= j < n && #[trigger] s[j].0.0 == local;
        assert(j < n - 1);
        assert(listed_before(s, (n - 1) as int, local));
        lemma_listed_latest(s, (n - 1) as nat, local);
    }
}

/// The local identifier of the root of the tree that `update` is for: the
/// root it brings, else the stored root of that subtree, else the root
/// tree's root.
pub open spec fn update_root_local(st: TreeState, update: TreeUpdate) -> u64 {
    match update.tree {
        Some(t) => t.root.0,
        None => if st.subtrees_view().contains_key(update.tree_id.0) {
            st.subtrees_view()[update.tree_id.0].0.0
        } else {
            st.info_view().root.0
        },
    }
}

/// What in an update, applied to state `st` as tree index `index`, can make
/// it fail before the root and the focus are checked: no index left for a
/// new tree, a subtree's data without its graft node, an unknown subtree
/// without data, a child named twice, a node that grafts a subtree, a node
/// that hangs from nothing, or a child that is nowhere.
pub open spec fn update_faulty(st: TreeState, update: TreeUpdate, index: u32) -> bool {
    let ev = entries_view(update.nodes@);
    ||| (!st.index_map().index_of().contains_key(update.tree_id.0) && st.index_map().next_index() == u32::MAX)
    ||| (update.tree_id.0 != 0 && update.tree is Some && !st.grafts_view().contains_key(update.tree_id.0))
    ||| (update.tree_id.0 != 0 && update.tree is None && !st.subtrees_view().contains_key(update.tree_id.0))
    ||| !flat_children(ev, update.nodes@.len()).no_duplicates()
    ||| lists_some_graft(ev)
    ||| lists_unattached(ev, st.nodes_view(), index, update_root_local(st, update))
    ||| lists_missing_child(ev, st.nodes_view(), index)
}

/// In state `s` the root or the focus is not stored, or the focus of the
/// root tree does not end at a node when followed through graft nodes.
pub open spec fn focus_or_root_lost(s: TreeState) -> bool {
    ||| !s.nodes_view().contains_key(node_key(s.root_view()))
    ||| !s.nodes_view().contains_key(node_key(s.focus_view()))
    ||| (s.subtrees_view().contains_key(0) && !(follow_focus(s.nodes_view(), s.subtrees_view(), s.subtrees_view()[0].1,
        s.subtrees_view().dom().len()) is Found))
}

/// `update` is a sound first update for state `st`, which holds nothing
/// yet (no nodes, graft nodes or subtrees, and its root is the root tree's
/// root): it is for the root tree and brings no tree data, has none of the
/// faults of [`update_faulty`], and lists both the root and the focus.
pub open spec fn sound_first_update(st: TreeState, update: TreeUpdate) -> bool {
    let ev = entries_view(update.nodes@);
    let lat = latest_data(ev, update.nodes@.len());
    &&& st.nodes_view().dom() == Set::<(u64, u32)>::empty()
    &&& st.grafts_view().dom() == Set::<u128>::empty()
    &&& st.subtrees_view().dom() == Set::<u128>::empty()
    &&& update.tree is None
    &&& update.tree_id.0 == 0
    &&& st.index_map().index_of().contains_key(0)
    &&& st.root_view() == FullNodeId { local: st.info_view().root, tree_index: TreeIndex(st.index_map().index_of()[0]) }
    &&& !update_faulty(st, update, st.index_map().index_of()[0])
    &&& lat.contains_key(st.info_view().root.0)
    &&& lat.contains_key(update.focus.0)
}

/// `u` is a sound first update of a tree: it brings the root tree's data,
/// is for the root tree, names no child twice, grafts no subtree, has no
/// node that hangs from nothing and no child that is nowhere, and lists
/// both the root and the focus.
pub open spec fn sound_first_tree(u: TreeUpdate) -> bool {
    let ev = entries_view(u.nodes@);
    let lat = latest_data(ev, u.nodes@.len());
    &&& u.tree is Some
    &&& u.tree_id.0 == 0
    &&& flat_children(ev, u.nodes@.len()).no_duplicates()
    &&& !lists_some_graft(ev)
    &&& !lists_unattached(ev, Map::empty(), 0, u.tree.unwrap().root.0)
    &&& !lists_missing_child(ev, Map::empty(), 0)
    &&& lat.contains_key(u.tree.unwrap().root.0)
    &&& lat.contains_key(u.focus.0)
}

/// The data that the first `n` nodes of an update give a local identifier
/// last is the data of one of them.
proof fn lemma_latest_from(s: Seq<(NodeId, NodeView)>, n: nat, local: u64)
    requires
        n <= s.len(),
        latest_data(s, n).contains_key(local),
    ensures
        exists|j: int| 0 <= j < n && (#[trigger] s[j]).1 == latest_data(s, n)[local],
    decreases n,
{
    if n > 0 {
        if s[n - 1].0.0 == local {
            assert(s[(n - 1) as int].1 == latest_data(s, n)[local]);
        } else {
            lemma_latest_from(s, (n - 1) as nat, local);
            let j = choose|j: int| 0 <= j < n - 1 && (#[trigger] s[j]).1 == latest_data(s, (n - 1) as nat)[local];
            assert(s[j].1 == latest_data(s, n)[local]);
        }
    }
}

/// Node `c` of tree `index` was a child, before the update, of a node that
/// the update lists among its first `i` nodes (by that node's first
/// listing).
pub open spec fn dropped_child(
    s: Seq<(NodeId, NodeView)>,
    old: Map<(u64, u32), NodeStateView>,
    index: u32,
    i: int,
    c: (u64, u32),
) -> bool {
    exists|j: int| #![trigger s[j]] 0 <= j < i && first_listing(s, j) && old.contains_key((s[j].0.0, index))
        && old[(s[j].0.0, index)].data.children().contains(NodeId(c.0))
}

/// Every node of `new` carries the data that the update gave it last, if
/// it is a node of tree `index` that the update lists; any other node was
/// in `old` with the same data.
pub open spec fn data_follows(
    new: Map<(u64, u32), NodeStateView>,
    old: Map<(u64, u32), NodeStateView>,
    index: u32,
    latest: Map<u64, NodeView>,
) -> bool {
    forall|k: (u64, u32)| #[trigger] new.contains_key(k) ==> {
        if k.1 == index && latest.contains_key(k.0) {
            new[k].data == latest[k.0]
        } else {
            old.contains_key(k) && new[k].data == old[k].data
        }
    }
}

/// `new` keeps some of the nodes of `old`, unchanged.
pub open spec fn sub_table(
    new: Map<(u64, u32), NodeStateView>,
    old: Map<(u64, u32), NodeStateView>,
) -> bool {
    forall|k: (u64, u32)| #[trigger] new.contains_key(k) ==> old.contains_key(k) && new[k] == old[k]
}

/// `new` has the nodes of `old` with the same data; parent links may differ.
pub open spec fn same_data(
    new: Map<(u64, u32), NodeStateView>,
    old: Map<(u64, u32), NodeStateView>,
) -> bool {
    &&& new.dom() == old.dom()
    &&& forall|k: (u64, u32)| #[trigger] new.contains_key(k) ==> new[k].data == old[k].data
}

/// The recorded changes account for every difference between the nodes
/// `old` before an update and the nodes `new` after it: each new node was
/// added, each vanished node was removed, each node whose data changed was
/// updated or added, and no removed node is left.
pub open spec fn changes_cover(
    new: Map<(u64, u32), NodeStateView>,
    old: Map<(u64, u32), NodeStateView>,
    added: Set<(u64, u32)>,
    updated: Set<(u64, u32)>,
    removed: Set<(u64, u32)>,
) -> bool {
    &&& forall|k: (u64, u32)| #[trigger] new.contains_key(k) && !old.contains_key(k) ==> added.contains(k)
    &&& forall|k: (u64, u32)| #[trigger] old.contains_key(k) && !new.contains_key(k) ==> removed.contains(k)
    &&& forall|k: (u64, u32)| #[trigger] new.contains_key(k) && old.contains_key(k) && new[k].data != old[k].data
        ==> updated.contains(k) || added.contains(k)
    &&& forall|k: (u64, u32)| #[trigger] removed.contains(k) ==> !new.contains_key(k)
}

/// Storing one node keeps the changes accounted for, if the node is
/// recorded as added when it is new and as changed when its data changed.
proof fn lemma_cover_store(
    b: Map<(u64, u32), NodeStateView>,
    a: Map<(u64, u32), NodeStateView>,
    old: Map<(u64, u32), NodeStateView>,
    added: Set<(u64, u32)>,
    updated: Set<(u64, u32)>,
    removed: Set<(u64, u32)>,
    added2: Set<(u64, u32)>,
    updated2: Set<(u64, u32)>,
    k: (u64, u32),
    v: NodeStateView,
)
    requires
        changes_cover(a, old, added, updated, removed),
        b == a.insert(k, v),
        added.subset_of(added2),
        updated.subset_of(updated2),
        !removed.contains(k),
        !old.contains_key(k) ==> added2.contains(k),
        old.contains_key(k) && v.data != old[k].data ==> updated2.contains(k) || added2.contains(k),
    ensures
        changes_cover(b, old, added2, updated2, removed),
{
    assert forall|x: (u64, u32)| #[trigger] b.contains_key(x) && !old.contains_key(x) implies added2.contains(x) by {
        if x != k {
            assert(a.contains_key(x));
        }
    }
    assert forall|x: (u64, u32)| #[trigger] old.contains_key(x) && !b.contains_key(x) implies removed.contains(x) by {
        assert(!a.contains_key(x));
    }
    assert forall|x: (u64, u32)| #[trigger] b.contains_key(x) && old.contains_key(x) && b[x].data != old[x].data
        implies updated2.contains(x) || added2.contains(x) by {
        if x != k {
            assert(a.contains_key(x));
        }
    }
    assert forall|x: (u64, u32)| #[trigger] removed.contains(x) implies !b.contains_key(x) by {
        assert(!a.contains_key(x));
    }
}

/// Removing one node keeps the changes accounted for, if it is recorded
/// as removed.
proof fn lemma_cover_remove(
    a: Map<(u64, u32), NodeStateView>,
    old: Map<(u64, u32), NodeStateView>,
    added: Set<(u64, u32)>,
    updated: Set<(u64, u32)>,
    removed: Set<(u64, u32)>,
    k: (u64, u32),
)
    requires
        changes_cover(a, old, added, updated, removed),
    ensures
        changes_cover(a.remove(k), old, added, updated, removed.insert(k)),
{
    let b = a.remove(k);
    assert forall|x: (u64, u32)| #[trigger] b.contains_key(x) && !old.contains_key(x) implies added.contains(x) by {
        assert(a.contains_key(x));
    }
    assert forall|x: (u64, u32)| #[trigger] old.contains_key(x) && !b.contains_key(x) implies removed.insert(k).contains(x) by {
        if x != k {
            assert(!a.contains_key(x));
        }
    }
    assert forall|x: (u64, u32)| #[trigger] b.contains_key(x) && old.contains_key(x) && b[x].data != old[x].data
        implies updated.contains(x) || added.contains(x) by {
        assert(a.contains_key(x));
    }
}

/// Changing parent links keeps the changes accounted for.
proof fn lemma_cover_same(
    b: Map<(u64, u32), NodeStateView>,
    a: Map<(u64, u32), NodeStateView>,
    old: Map<(u64, u32), NodeStateView>,
    added: Set<(u64, u32)>,
    updated: Set<(u64, u32)>,
    removed: Set<(u64, u32)>,
    added2: Set<(u64, u32)>,
    updated2: Set<(u64, u32)>,
)
    requires
        changes_cover(a, old, added, updated, removed),
        same_data(b, a),
        added.subset_of(added2),
        updated.subset_of(updated2),
    ensures
        changes_cover(b, old, added2, updated2, removed),
{
    assert forall|x: (u64, u32)| #[trigger] b.contains_key(x) && !old.contains_key(x) implies added2.contains(x) by {
        assert(a.contains_key(x));
    }
    assert forall|x: (u64, u32)| #[trigger] old.contains_key(x) && !b.contains_key(x) implies removed.contains(x) by {
        assert(!a.contains_key(x));
    }
    assert forall|x: (u64, u32)| #[trigger] b.contains_key(x) && old.contains_key(x) && b[x].data != old[x].data
        implies updated2.contains(x) || added2.contains(x) by {
        assert(a.contains_key(x));
    }
    assert forall|x: (u64, u32)| #[trigger] removed.contains(x) implies !b.contains_key(x) by {
        assert(!a.contains_key(x));
    }
}

/// The outcome of following the focus through graft nodes.
pub enum FocusOutcome {
    /// The node where it ends.
    Found((u64, u32)),
    /// A graft node on the way has no subtree.
    MissingSubtree,
    /// It does not end within the allowed number of steps.
    NoEnd,
}

/// Follows the focus from `cur`: while it is on a graft node, it moves to
/// the focus of the grafted subtree, at most `fuel` times.
pub open spec fn follow_focus(
    nodes: Map<(u64, u32), NodeStateView>,
    subtrees: Map<u128, ((u64, u32), (u64, u32))>,
    cur: (u64, u32),
    fuel: nat,
) -> FocusOutcome
    decreases fuel,
{
    if nodes.contains_key(cur) && nodes[cur].data.tree_id() is Some {
        let t = nodes[cur].data.tree_id().unwrap().0;
        if !subtrees.contains_key(t) {
            FocusOutcome::MissingSubtree
        } else if fuel == 0 {
            FocusOutcome::NoEnd
        } else {
            follow_focus(nodes, subtrees, subtrees[t].1, (fuel - 1) as nat)
        }
    } else {
        FocusOutcome::Found(cur)
    }
}

/// Following the focus reads only which nodes are stored and their data.
proof fn lemma_follow_focus_same_data(
    a: Map<(u64, u32), NodeStateView>,
    b: Map<(u64, u32), NodeStateView>,
    subtrees: Map<u128, ((u64, u32), (u64, u32))>,
    cur: (u64, u32),
    fuel: nat,
)
    requires
        same_data(a, b),
    ensures
        follow_focus(a, subtrees, cur, fuel) == follow_focus(b, subtrees, cur, fuel),
    decreases fuel,
{
    assert(a.contains_key(cur) == b.contains_key(cur));
    if a.contains_key(cur) && a[cur].data.tree_id() is Some {
        let t = a[cur].data.tree_id().unwrap().0;
        if subtrees.contains_key(t) && fuel > 0 {
            lemma_follow_focus_same_data(a, b, subtrees, subtrees[t].1, (fuel - 1) as nat);
        }
    }
}

/// The nodes that an update added, changed and removed.
pub struct InternalChanges {
    pub added: NodeKeySet,
    pub updated: NodeKeySet,
    pub removed: NodeKeySet,
}

impl InternalChanges {
    /// No change recorded.
    pub fn new() -> (r: InternalChanges)
        ensures
            r.added@ == Set::<(u64, u32)>::empty(),
            r.updated@ == Set::<(u64, u32)>::empty(),
            r.removed@ == Set::<(u64, u32)>::empty(),
    {
        InternalChanges { added: NodeKeySet::new(), updated: NodeKeySet::new(), removed: NodeKeySet::new() }
    }
}

/// The state of a consumer-side tree: its nodes, the root tree's data,
/// its root, its focus, whether the host window has focus, the subtrees
/// and the graft nodes that hold them.
pub struct TreeState {
    nodes: NodeTable,
    info: TreeInfo,
    root: FullNodeId,
    focus: FullNodeId,
    is_host_focused: bool,
    subtrees: SubtreeTable,
    graft_parents: GraftTable,
    tree_index_map: TreeIndexMap,
}

impl TreeState {
    /// The stored nodes, by node key.
    pub closed spec fn nodes_view(&self) -> Map<(u64, u32), NodeStateView> {
        self.nodes@
    }

    /// The root tree's data.
    pub closed spec fn info_view(&self) -> TreeView {
        self.info@
    }

    /// The root node.
    pub closed spec fn root_view(&self) -> FullNodeId {
        self.root
    }

    /// The node that has the focus within the tree.
    pub closed spec fn focus_view(&self) -> FullNodeId {
        self.focus
    }

    /// Whether the host window has the focus.
    pub closed spec fn host_focused(&self) -> bool {
        self.is_host_focused
    }

    /// Root and focus of each tree, by tree identifier.
    pub closed spec fn subtrees_view(&self) -> Map<u128, ((u64, u32), (u64, u32))> {
        self.subtrees@
    }

    /// The graft node of each subtree, by tree identifier.
    pub closed spec fn grafts_view(&self) -> Map<u128, (u64, u32)> {
        self.graft_parents@
    }

    /// The tree indices.
    pub closed spec fn index_map(&self) -> TreeIndexMap {
        self.tree_index_map
    }

    /// What an update needs of the state it is applied to.
    pub open spec fn inner_wf(&self) -> bool {
        &&& self.nodes_view().dom().finite()
        &&& self.index_map().wf()
    }

    /// A consistent state: the root and the focus are stored nodes.
    pub open spec fn wf(&self) -> bool {
        &&& self.inner_wf()
        &&& self.nodes_view().contains_key(node_key(self.root_view()))
        &&& self.nodes_view().contains_key(node_key(self.focus_view()))
    }
}

/// Whether `p` is exactly the parent link `q`.
fn is_parent_link(p: Option<ParentAndIndex>, q: ParentAndIndex) -> (r: bool)
    ensures
        r == (p == Some(q)),
{
    match p {
        Some(x) => x.0 == q.0 && x.1 == q.1,
        None => false,
    }
}

/// Whether two optional tree identifiers are the same.
fn same_tree_id(a: Option<TreeId>, b: Option<TreeId>) -> (r: bool)
    ensures
        r == (a == b),
{
    match (a, b) {
        (Some(x), Some(y)) => x.0 == y.0,
        (None, None) => true,
        _ => false,
    }
}

/// Records that `node` is the graft node of `subtree` in this update.
fn record_graft(pending_grafts: &mut GraftTable, subtree: TreeId, node: FullNodeId) -> (r: Result<(), TreeError>)
    ensures
        subtree.0 == 0 ==> r == Err::<(), TreeError>(TreeError::GraftOfRootTree),
        subtree.0 != 0 && old(pending_grafts)@.contains_key(subtree.0) ==> r == Err::<(), TreeError>(TreeError::DuplicateGraft),
        subtree.0 != 0 && !old(pending_grafts)@.contains_key(subtree.0) ==> r is Ok,
        r is Ok ==> final(pending_grafts)@ == old(pending_grafts)@.insert(subtree.0, node_key(node)),
        r is Err ==> r == Err::<(), TreeError>(TreeError::GraftOfRootTree) || r == Err::<(), TreeError>(TreeError::DuplicateGraft),
{
    if subtree.0 == 0 {
        return Err(TreeError::GraftOfRootTree);
    }
    if pending_grafts.contains_key(subtree.0) {
        return Err(TreeError::DuplicateGraft);
    }
    pending_grafts.insert(subtree.0, node);
    Ok(())
}

/// Stores a node of the update, noting the subtree it grafts in, if any.
fn add_node(
    nodes: &mut NodeTable,
    pending_grafts: &mut GraftTable,
    changes: &mut InternalChanges,
    parent_and_index: Option<ParentAndIndex>,
    id: FullNodeId,
    data: Node,
) -> (r: Result<(), TreeError>)
    ensures
        r is Ok ==> final(nodes)@ == old(nodes)@.insert(
            node_key(id),
            NodeStateView { parent: crate::ids::parent_view(parent_and_index), data: data@ },
        ),
        r is Ok ==> final(changes).added@ == old(changes).added@.insert(node_key(id)),
        r is Ok ==> final(changes).updated@ == old(changes).updated@,
        r is Ok ==> final(changes).removed@ == old(changes).removed@,
        data@.tree_id() is Some && data@.children().len() > 0 ==> r == Err::<(), TreeError>(TreeError::GraftWithChildren),
        r is Err ==> r == Err::<(), TreeError>(TreeError::GraftWithChildren) || r == Err::<(), TreeError>(TreeError::GraftOfRootTree)
            || r == Err::<(), TreeError>(TreeError::DuplicateGraft),
        r == Err::<(), TreeError>(TreeError::GraftWithChildren) ==> data@.tree_id() is Some && data@.children().len() > 0,
        r == Err::<(), TreeError>(TreeError::GraftOfRootTree) ==> data@.tree_id() is Some && data@.tree_id().unwrap().0 == 0,
        r == Err::<(), TreeError>(TreeError::DuplicateGraft) ==> data@.tree_id() is Some,
        r is Ok ==> final(pending_grafts)@ == old(pending_grafts)@ || data@.tree_id() is Some,
{
    match data.tree_id() {
        Some(subtree) => {
            if data.children().len() > 0 {
                return Err(TreeError::GraftWithChildren);
            }
            record_graft(pending_grafts, subtree, id)?;
        },
        None => {},
    }
    let k = id.as_key();
    nodes.insert(k, NodeState { parent_and_index, data });
    changes.added.insert(k);
    Ok(())
}

/// The `j`-th node of an update is the last listing of its identifier
/// among the first `i` nodes.
pub open spec fn last_listing(s: Seq<(NodeId, NodeView)>, j: int, i: int) -> bool {
    forall|k: int| j < k < i ==> (#[trigger] s[k]).0 != s[j].0
}

/// Node `ck` has the parent link `pl`: it is stored with that link, or it
/// waits for its own node with that link.
pub open spec fn linked_to(
    nodes: Map<(u64, u32), NodeStateView>,
    waiting: Map<(u64, u32), ((u64, u32), usize)>,
    ck: (u64, u32),
    pl: ((u64, u32), usize),
) -> bool {
    ||| nodes.contains_key(ck) && nodes[ck].parent == Some(pl)
    ||| waiting.contains_key(ck) && waiting[ck] == pl
}

/// Node `k` keeps its parent link from (`nodes`, `waiting`) to (`nodes2`,
/// `waiting2`): stored nodes stay stored with the same link, and waiting
/// children keep waiting with the same link.
pub open spec fn link_kept(
    nodes: Map<(u64, u32), NodeStateView>,
    waiting: Map<(u64, u32), ((u64, u32), usize)>,
    nodes2: Map<(u64, u32), NodeStateView>,
    waiting2: Map<(u64, u32), ((u64, u32), usize)>,
    k: (u64, u32),
) -> bool {
    &&& nodes.contains_key(k) ==> nodes2.contains_key(k) && nodes2[k].parent == nodes[k].parent
    &&& waiting.contains_key(k) ==> waiting2.contains_key(k) && waiting2[k] == waiting[k]
}

/// The children step: every child of the listed node is given its parent
/// link; children not yet stored wait for their own node.
fn link_children(
    nodes: &mut NodeTable,
    pending_nodes: &mut NodeTable,
    pending_children: &mut ParentTable,
    unreachable: &mut NodeKeySet,
    seen: &mut NodeKeySet,
    pending_grafts: &mut GraftTable,
    changes: &mut InternalChanges,
    node_id: FullNodeId,
    children: &[NodeId],
    Ghost(prior): Ghost<Seq<NodeId>>,
    Ghost(old_nodes): Ghost<Map<(u64, u32), NodeStateView>>,
    Ghost(latest): Ghost<Map<u64, NodeView>>,
    root_local: NodeId,
) -> (r: Result<(), TreeError>)
    requires
        old(nodes)@.dom().finite(),
        data_follows(old(nodes)@, old_nodes, node_id.tree_index.0, latest),
        forall|k: (u64, u32)| #[trigger] old(pending_nodes)@.contains_key(k) ==> {
            &&& k.1 == node_id.tree_index.0
            &&& k.0 != root_local.0
            &&& latest.contains_key(k.0)
            &&& old(pending_nodes)@[k].data == latest[k.0]
            &&& !old(nodes)@.contains_key(k)
            &&& !old(pending_children)@.contains_key(k)
        },
        forall|k: (u64, u32)| #[trigger] old(seen)@.contains(k) <==> (k.1 == node_id.tree_index.0 && prior.contains(NodeId(k.0))),
        prior.no_duplicates(),
        old_nodes.dom().subset_of(old(nodes)@.dom()),
        old(changes).removed@ == Set::<(u64, u32)>::empty(),
        changes_cover(old(nodes)@, old_nodes, old(changes).added@, old(changes).updated@, old(changes).removed@),
        forall|k: (u64, u32)| #[trigger] old(seen)@.contains(k) ==> old(nodes)@.contains_key(k) || old(pending_children)@.contains_key(k),
        forall|k: (u64, u32)| #[trigger] old(pending_children)@.contains_key(k) ==> k.1 == node_id.tree_index.0
            && old(seen)@.contains(k) && !old(nodes)@.contains_key(k) && !latest.contains_key(k.0),
        forall|x: u64| #[trigger] latest.contains_key(x) ==> old(nodes)@.contains_key((x, node_id.tree_index.0))
            || old(pending_nodes)@.contains_key((x, node_id.tree_index.0)),
    ensures
        r is Ok ==> {
            &&& forall|k: (u64, u32)| #[trigger] final(seen)@.contains(k) ==> final(nodes)@.contains_key(k)
                || final(pending_children)@.contains_key(k)
            &&& forall|k: (u64, u32)| #[trigger] final(pending_children)@.contains_key(k) ==> k.1 == node_id.tree_index.0
                && final(seen)@.contains(k) && !final(nodes)@.contains_key(k) && !latest.contains_key(k.0)
            &&& forall|x: u64| #[trigger] latest.contains_key(x) ==> final(nodes)@.contains_key((x, node_id.tree_index.0))
                || final(pending_nodes)@.contains_key((x, node_id.tree_index.0))
            &&& old_nodes.dom().subset_of(final(nodes)@.dom())
            &&& final(changes).removed@ == Set::<(u64, u32)>::empty()
            &&& changes_cover(final(nodes)@, old_nodes, final(changes).added@, final(changes).updated@, final(changes).removed@)
            &&& final(nodes)@.dom().finite()
            &&& data_follows(final(nodes)@, old_nodes, node_id.tree_index.0, latest)
            &&& forall|k: (u64, u32)| #[trigger] final(pending_nodes)@.contains_key(k) ==> {
                &&& k.1 == node_id.tree_index.0
                &&& k.0 != root_local.0
                &&& latest.contains_key(k.0)
                &&& final(pending_nodes)@[k].data == latest[k.0]
                &&& !final(nodes)@.contains_key(k)
                &&& !final(pending_children)@.contains_key(k)
            }
            &&& forall|k: (u64, u32)| #[trigger] final(seen)@.contains(k) <==> (k.1 == node_id.tree_index.0 && (prior + children@).contains(NodeId(k.0)))
            &&& (prior + children@).no_duplicates()
            &&& forall|k: (u64, u32)| #[trigger] old(unreachable)@.contains(k) && !final(seen)@.contains(k)
                ==> final(unreachable)@.contains(k)
        },
        r is Err ==> r == Err::<(), TreeError>(TreeError::DuplicateChild) ==> !(prior + children@).no_duplicates(),
        r is Err ==> is_node_error(r->Err_0),
        r != Err::<(), TreeError>(TreeError::UnattachedNodes),
        r != Err::<(), TreeError>(TreeError::MissingChildren),
        final(unreachable)@.subset_of(old(unreachable)@),
        r is Ok ==> forall|m: int| 0 <= m < children@.len() ==> linked_to(final(nodes)@, final(pending_children)@,
            (#[trigger] children@[m].0, node_id.tree_index.0), (node_key(node_id), m as usize)),
        r is Ok ==> forall|k: (u64, u32)| !(k.1 == node_id.tree_index.0 && children@.contains(NodeId(k.0)))
            ==> #[trigger] link_kept(old(nodes)@, old(pending_children)@, final(nodes)@, final(pending_children)@, k),
        r == Err::<(), TreeError>(TreeError::GraftWithChildren) ==> exists|x: u64| #[trigger] latest.contains_key(x)
            && latest[x].tree_id() is Some && latest[x].children().len() > 0,
        r == Err::<(), TreeError>(TreeError::GraftOfRootTree) ==> exists|x: u64| #[trigger] latest.contains_key(x)
            && latest[x].tree_id() is Some && latest[x].tree_id().unwrap().0 == 0,
        r == Err::<(), TreeError>(TreeError::DuplicateGraft) ==> exists|x: u64| #[trigger] latest.contains_key(x)
            && latest[x].tree_id() is Some,
        r is Ok ==> final(pending_grafts)@ == old(pending_grafts)@ || exists|x: u64| #[trigger] latest.contains_key(x)
            && latest[x].tree_id() is Some,
{
    let ghost ti = node_id.tree_index.0;
    let mut j: usize = 0;
    while j < children.len()
        invariant
            j <= children@.len(),
            nodes@.dom().finite(),
            data_follows(nodes@, old_nodes, ti, latest),
            ti == node_id.tree_index.0,
            forall|k: (u64, u32)| #[trigger] pending_nodes@.contains_key(k) ==> {
                &&& k.1 == ti
                &&& k.0 != root_local.0
                &&& latest.contains_key(k.0)
                &&& pending_nodes@[k].data == latest[k.0]
                &&& !nodes@.contains_key(k)
                &&& !pending_children@.contains_key(k)
            },
            forall|k: (u64, u32)| #[trigger] seen@.contains(k) <==> (k.1 == ti && (prior + children@.subrange(0, j as int)).contains(NodeId(k.0))),
            (prior + children@.subrange(0, j as int)).no_duplicates(),
            old_nodes.dom().subset_of(nodes@.dom()),
            changes.removed@ == Set::<(u64, u32)>::empty(),
            changes_cover(nodes@, old_nodes, changes.added@, changes.updated@, changes.removed@),
            forall|k: (u64, u32)| #[trigger] old(unreachable)@.contains(k) && !seen@.contains(k) ==> unreachable@.contains(k),
            forall|k: (u64, u32)| #[trigger] seen@.contains(k) ==> nodes@.contains_key(k) || pending_children@.contains_key(k),
            forall|k: (u64, u32)| #[trigger] pending_children@.contains_key(k) ==> k.1 == ti
                && seen@.contains(k) && !nodes@.contains_key(k) && !latest.contains_key(k.0),
            forall|x: u64| #[trigger] latest.contains_key(x) ==> nodes@.contains_key((x, ti))
                || pending_nodes@.contains_key((x, ti)),
            pending_grafts@ == old(pending_grafts)@ || exists|x: u64| #[trigger] latest.contains_key(x)
                && latest[x].tree_id() is Some,
            unreachable@.subset_of(old(unreachable)@),
            forall|m: int| 0 <= m < j ==> linked_to(nodes@, pending_children@,
                (#[trigger] children@[m].0, ti), (node_key(node_id), m as usize)),
            forall|k: (u64, u32)| !(k.1 == ti && children@.subrange(0, j as int).contains(NodeId(k.0)))
                ==> #[trigger] link_kept(old(nodes)@, old(pending_children)@, nodes@, pending_children@, k),
        decreases children@.len() - j,
    {
        let c = children[j];
        let ck = (c.0, node_id.tree_index.0);
        let ghost before = prior + children@.subrange(0, j as int);
        assert(prior + children@.subrange(0, j + 1) =~= before.push(c));
        let ghost seen_before = seen@;
        assert(NodeId(ck.0) == c);
        if !seen.insert(ck) {
            assert(seen_before.contains(ck));
            assert(before.contains(NodeId(ck.0)));
            assert(before.contains(c));
            let ghost w = choose|w: int| 0 <= w < before.len() && before[w] == c;
            assert((prior + children@).no_duplicates() ==> false) by {
                if (prior + children@).no_duplicates() {
                    assert((prior + children@)[w] == before[w]);
                    assert((prior + children@)[before.len() as int] == c);
                }
            }
            return Err(TreeError::DuplicateChild);
        }
        assert(!seen_before.contains(ck));
        assert(!before.contains(c)) by {
            if before.contains(c) {
                assert(seen_before.contains(ck));
            }
        }
        assert forall|k: (u64, u32)| #[trigger] seen@.contains(k) <==> (k.1 == ti && before.push(c).contains(NodeId(k.0))) by {
            if k == ck {
                assert(before.push(c)[before.len() as int] == c);
            } else {
                assert(seen_before.contains(k) <==> (k.1 == ti && before.contains(NodeId(k.0))));
                if k.1 == ti && before.push(c).contains(NodeId(k.0)) {
                    let w = choose|w: int| 0 <= w < before.push(c).len() && before.push(c)[w] == NodeId(k.0);
                    if w < before.len() {
                        assert(before[w] == NodeId(k.0));
                    } else {
                        assert(NodeId(k.0) == c);
                        assert(k == ck);
                    }
                }
                if k.1 == ti && before.contains(NodeId(k.0)) {
                    let w = choose|w: int| 0 <= w < before.len() && before[w] == NodeId(k.0);
                    assert(before.push(c)[w] == NodeId(k.0));
                }
            }
        }
        let ghost unr0 = unreachable@;
        unreachable.remove(ck);
        assert forall|k: (u64, u32)| #[trigger] old(unreachable)@.contains(k) && !seen@.contains(k) implies unreachable@.contains(k) by {
            assert(seen_before.contains(k) ==> seen@.contains(k));
            assert(k != ck);
            assert(unr0.contains(k));
        }
        let pai = ParentAndIndex(node_id, j);
        let ghost n0 = nodes@;
        let ghost p0 = pending_nodes@;
        let ghost c0 = pending_children@;
        let ghost a0 = changes.added@;
        let ghost u0 = changes.updated@;
        match nodes.remove(ck) {
            Some(st) => {
                let mut st = st;
                if !is_parent_link(st.parent_and_index, pai) {
                    st.parent_and_index = Some(pai);
                    changes.updated.insert(ck);
                }
                nodes.insert(ck, st);
                assert(nodes@.dom() =~= n0.dom());
                assert forall|k: (u64, u32)| #[trigger] nodes@.contains_key(k) implies
                    nodes@[k].data == n0[k].data by {}
                assert(nodes@ =~= n0.insert(ck, st@));
                proof {
                    lemma_cover_store(nodes@, n0, old_nodes, a0, u0, changes.removed@, changes.added@,
                        changes.updated@, ck, st@);
                }
                assert(pending_nodes@ == p0 && pending_children@ == c0);
                assert forall|k: (u64, u32)| #[trigger] seen@.contains(k) implies nodes@.contains_key(k)
                    || pending_children@.contains_key(k) by {
                    if k != ck {
                        assert(seen_before.contains(k));
                        assert(n0.contains_key(k) || c0.contains_key(k));
                    }
                }
                assert forall|k: (u64, u32)| #[trigger] pending_children@.contains_key(k) implies k.1 == ti
                    && seen@.contains(k) && !nodes@.contains_key(k) && !latest.contains_key(k.0) by {
                    assert(seen_before.contains(k));
                    assert(k != ck);
                }
                assert forall|x: u64| #[trigger] latest.contains_key(x) implies nodes@.contains_key((x, ti))
                    || pending_nodes@.contains_key((x, ti)) by {
                    assert(n0.contains_key((x, ti)) || p0.contains_key((x, ti)));
                }
            },
            None => {
                assert(nodes@ =~= n0);
                match pending_nodes.remove(ck) {
                    Some(pst) => {
                        assert(p0.contains_key(ck));
                        let ghost pv = NodeStateView { parent: crate::ids::parent_view(Some(pai)), data: pst.data@ };
                        let ghost pd = pst.data@;
                        assert(pd == latest[ck.0]);
                        match add_node(nodes, pending_grafts, changes, Some(pai), FullNodeId::from_key(ck), pst.data) {
                            Ok(()) => {},
                            Err(e) => {
                                assert(latest.contains_key(ck.0));
                                return Err(e);
                            },
                        }
                        proof {
                            lemma_cover_store(nodes@, n0, old_nodes, a0, u0, changes.removed@, changes.added@,
                                changes.updated@, ck, pv);
                        }
                        assert forall|k: (u64, u32)| #[trigger] nodes@.contains_key(k) implies
                            (if k.1 == ti && latest.contains_key(k.0) {
                                nodes@[k].data == latest[k.0]
                            } else {
                                old_nodes.contains_key(k) && nodes@[k].data == old_nodes[k].data
                            }) by {
                            if k != ck {
                                assert(n0.contains_key(k));
                            }
                        }
                        assert(pending_children@ == c0);
                        assert(nodes@.contains_key(ck));
                        assert forall|k: (u64, u32)| #[trigger] seen@.contains(k) implies nodes@.contains_key(k)
                            || pending_children@.contains_key(k) by {
                            if k != ck {
                                assert(seen_before.contains(k));
                                assert(n0.contains_key(k) || c0.contains_key(k));
                            }
                        }
                        assert forall|k: (u64, u32)| #[trigger] pending_children@.contains_key(k) implies k.1 == ti
                            && seen@.contains(k) && !nodes@.contains_key(k) && !latest.contains_key(k.0) by {
                            assert(seen_before.contains(k));
                            assert(k != ck);
                            assert(!n0.contains_key(k));
                        }
                        assert forall|x: u64| #[trigger] latest.contains_key(x) implies nodes@.contains_key((x, ti))
                            || pending_nodes@.contains_key((x, ti)) by {
                            assert(n0.contains_key((x, ti)) || p0.contains_key((x, ti)));
                            if (x, ti) != ck && p0.contains_key((x, ti)) {
                                assert(pending_nodes@.contains_key((x, ti)));
                            }
                        }
                    },
                    None => {
                        assert(pending_nodes@ =~= p0);
                        assert(!p0.contains_key(ck));
                        pending_children.insert(ck, pai);
                        assert forall|k: (u64, u32)| #[trigger] seen@.contains(k) implies nodes@.contains_key(k)
                            || pending_children@.contains_key(k) by {
                            if k != ck {
                                assert(seen_before.contains(k));
                                assert(n0.contains_key(k) || c0.contains_key(k));
                            }
                        }
                        assert forall|k: (u64, u32)| #[trigger] pending_children@.contains_key(k) implies k.1 == ti
                            && seen@.contains(k) && !nodes@.contains_key(k) && !latest.contains_key(k.0) by {
                            if k != ck {
                                assert(c0.contains_key(k));
                                assert(seen_before.contains(k));
                            } else {
                                if latest.contains_key(k.0) {
                                    assert(n0.contains_key((k.0, ti)) || p0.contains_key((k.0, ti)));
                                }
                            }
                        }
                        assert forall|x: u64| #[trigger] latest.contains_key(x) implies nodes@.contains_key((x, ti))
                            || pending_nodes@.contains_key((x, ti)) by {
                            assert(n0.contains_key((x, ti)) || p0.contains_key((x, ti)));
                        }
                    },
                }
            },
        }
        proof {
            assert(linked_to(nodes@, pending_children@, ck, (node_key(node_id), j)));
            assert forall|m: int| 0 <= m < j + 1 implies linked_to(nodes@, pending_children@,
                (#[trigger] children@[m].0, ti), (node_key(node_id), m as usize)) by {
                if m < j {
                    assert(children@.subrange(0, j as int)[m] == children@[m]);
                    assert(before[prior.len() + m] == children@[m]);
                    assert(children@[m] != c);
                    assert((children@[m].0, ti) != ck);
                    assert(linked_to(n0, c0, (children@[m].0, ti), (node_key(node_id), m as usize)));
                }
            }
            assert forall|k: (u64, u32)| !(k.1 == ti && children@.subrange(0, j + 1).contains(NodeId(k.0)))
                implies #[trigger] link_kept(old(nodes)@, old(pending_children)@, nodes@, pending_children@, k) by {
                assert(children@.subrange(0, j + 1)[j as int] == c);
                assert(k != ck);
                if k.1 == ti && children@.subrange(0, j as int).contains(NodeId(k.0)) {
                    let w = choose|w: int| 0 <= w < j && children@.subrange(0, j as int)[w] == NodeId(k.0);
                    assert(children@.subrange(0, j + 1)[w] == NodeId(k.0));
                }
                assert(link_kept(old(nodes)@, old(pending_children)@, n0, c0, k));
            }
        }
        j = j + 1;
    }
    assert(children@.subrange(0, children@.len() as int) =~= children@);
    Ok(())
}

/// A child named by one of the first `n` nodes of an update is among
/// their children.
proof fn lemma_child_in_flat(s: Seq<(NodeId, NodeView)>, j: int, n: nat, c: NodeId)
    requires
        0 <= j < n <= s.len(),
        s[j].1.children().contains(c),
    ensures
        flat_children(s, n).contains(c),
    decreases n,
{
    let f = flat_children(s, (n - 1) as nat);
    let ch = s[n - 1].1.children();
    assert(flat_children(s, n) == f + ch);
    if j == n - 1 {
        let w = choose|w: int| 0 <= w < ch.len() && ch[w] == c;
        assert((f + ch)[f.len() + w] == c);
    } else {
        lemma_child_in_flat(s, j, (n - 1) as nat, c);
        let w = choose|w: int| 0 <= w < f.len() && f[w] == c;
        assert((f + ch)[w] == c);
    }
}

/// The children of the first `a` nodes of an update come first among the
/// children of the first `b` nodes, for `a <= b`.
proof fn lemma_flat_prefix(s: Seq<(NodeId, NodeView)>, a: nat, b: nat)
    requires
        a <= b <= s.len(),
    ensures
        flat_children(s, a).len() <= flat_children(s, b).len(),
        forall|w: int| 0 <= w < flat_children(s, a).len() ==> #[trigger] flat_children(s, b)[w] == flat_children(s, a)[w],
    decreases b,
{
    if a < b {
        lemma_flat_prefix(s, a, (b - 1) as nat);
        let p = flat_children(s, (b - 1) as nat);
        assert(flat_children(s, b) == p + s[b - 1].1.children());
        assert forall|w: int| 0 <= w < flat_children(s, a).len() implies #[trigger] flat_children(s, b)[w] == flat_children(s, a)[w] by {
            assert(flat_children(s, b)[w] == p[w]);
        }
    }
}

/// Children of a stored node that no node of the update claims may have
/// become unreachable.
fn mark_unclaimed_children(unreachable: &mut NodeKeySet, seen: &NodeKeySet, children: &[NodeId], tree_index: TreeIndex)
    ensures
        old(unreachable)@.subset_of(final(unreachable)@),
        forall|k: (u64, u32)| k.1 == tree_index.0 && children@.contains(NodeId(k.0)) && !seen@.contains(k)
            ==> #[trigger] final(unreachable)@.contains(k),
        forall|k: (u64, u32)| #[trigger] final(unreachable)@.contains(k) ==> old(unreachable)@.contains(k)
            || (k.1 == tree_index.0 && children@.contains(NodeId(k.0)) && !seen@.contains(k)),
{
    let mut e: usize = 0;
    while e < children.len()
        invariant
            e <= children@.len(),
            old(unreachable)@.subset_of(unreachable@),
            forall|k: (u64, u32)| k.1 == tree_index.0 && children@.subrange(0, e as int).contains(NodeId(k.0))
                && !seen@.contains(k) ==> #[trigger] unreachable@.contains(k),
            forall|k: (u64, u32)| #[trigger] unreachable@.contains(k) ==> old(unreachable)@.contains(k)
                || (k.1 == tree_index.0 && children@.contains(NodeId(k.0)) && !seen@.contains(k)),
        decreases children@.len() - e,
    {
        let ghost u0 = unreachable@;
        let ghost pre = children@.subrange(0, e as int);
        assert(children@.subrange(0, e + 1) =~= pre.push(children@[e as int]));
        let ek = (children[e].0, tree_index.0);
        if !seen.contains(ek) {
            unreachable.insert(ek);
            assert(children@[e as int] == NodeId(ek.0));
        }
        assert forall|k: (u64, u32)| k.1 == tree_index.0 && pre.push(children@[e as int]).contains(NodeId(k.0))
            && !seen@.contains(k) implies #[trigger] unreachable@.contains(k) by {
            let w = choose|w: int| 0 <= w < pre.push(children@[e as int]).len() && pre.push(children@[e as int])[w] == NodeId(k.0);
            if w < pre.len() {
                assert(pre[w] == NodeId(k.0));
                assert(pre.contains(NodeId(k.0)));
                assert(u0.contains(k));
            } else {
                assert(k == ek);
            }
        }
        e = e + 1;
    }
    assert(children@.subrange(0, children@.len() as int) =~= children@);
}

/// Applies the nodes of an update, in order: each listed node replaces the
/// stored node with its identifier or is stored anew, and its children are
/// given their parent links.
fn apply_nodes(
    nodes: &mut NodeTable,
    unreachable: &mut NodeKeySet,
    seen: &mut NodeKeySet,
    pending_grafts: &mut GraftTable,
    grafts_to_remove: &mut TreeIdSet,
    changes: &mut InternalChanges,
    entries: &Vec<(NodeId, Node)>,
    tree_index: TreeIndex,
    root_local: NodeId,
) -> (r: Result<(), TreeError>)
    requires
        old(nodes)@.dom().finite(),
        old(seen)@ == Set::<(u64, u32)>::empty(),
        old(changes).removed@ == Set::<(u64, u32)>::empty(),
        old(pending_grafts)@.dom() == Set::<u128>::empty(),
    ensures
        r is Ok ==> final(pending_grafts)@.dom() == Set::<u128>::empty() || lists_some_graft(entries_view(entries@)),
        r == Err::<(), TreeError>(TreeError::DuplicateGraft) ==> lists_some_graft(entries_view(entries@)),
        r is Ok ==> forall|x: u64| #[trigger] latest_data(entries_view(entries@), entries@.len()).contains_key(x)
            ==> final(nodes)@.contains_key((x, tree_index.0)),
        r is Ok ==> forall|j: int, m: int| 0 <= j < entries@.len() && last_listing(entries_view(entries@), j, entries@.len() as int)
            && 0 <= m < entries_view(entries@)[j].1.children().len()
            && entries_view(entries@)[j].1.children()[m].0 != root_local.0 ==> {
                let ck = (#[trigger] entries_view(entries@)[j].1.children()[m].0, tree_index.0);
                &&& final(nodes)@.contains_key(ck)
                &&& final(nodes)@[ck].parent == Some(((entries_view(entries@)[j].0.0, tree_index.0), m as usize))
            },
        r is Ok ==> (old(nodes)@.dom() == Set::<(u64, u32)>::empty() && old(unreachable)@ == Set::<(u64, u32)>::empty()
            ==> final(unreachable)@ == Set::<(u64, u32)>::empty()),
        r is Ok ==> {
            &&& old(nodes)@.dom().subset_of(final(nodes)@.dom())
            &&& final(changes).removed@ == Set::<(u64, u32)>::empty()
            &&& changes_cover(final(nodes)@, old(nodes)@, final(changes).added@, final(changes).updated@, final(changes).removed@)
            &&& final(nodes)@.dom().finite()
            &&& data_follows(final(nodes)@, old(nodes)@, tree_index.0,
                latest_data(entries_view(entries@), entries@.len()))
            &&& flat_children(entries_view(entries@), entries@.len()).no_duplicates()
            &&& forall|k: (u64, u32)| #[trigger] final(seen)@.contains(k) <==> (k.1 == tree_index.0
                && flat_children(entries_view(entries@), entries@.len()).contains(NodeId(k.0)))
            &&& forall|c: (u64, u32)| #[trigger] dropped_child(entries_view(entries@), old(nodes)@, tree_index.0, entries@.len() as int, c)
                && c.1 == tree_index.0 && !final(seen)@.contains(c)
                && !listed_before(entries_view(entries@), entries@.len() as int, c.0) ==> final(unreachable)@.contains(c)
        },
        r == Err::<(), TreeError>(TreeError::DuplicateChild) ==>
            !flat_children(entries_view(entries@), entries@.len()).no_duplicates(),
        r is Err ==> is_node_error(r->Err_0),
        r == Err::<(), TreeError>(TreeError::GraftWithChildren) ==> lists_graft_with_children(entries_view(entries@)),
        r == Err::<(), TreeError>(TreeError::GraftOfRootTree) ==> lists_root_graft(entries_view(entries@)),
        r == Err::<(), TreeError>(TreeError::UnattachedNodes) ==> lists_unattached(entries_view(entries@), old(nodes)@,
            tree_index.0, root_local.0),
        r == Err::<(), TreeError>(TreeError::MissingChildren) ==> lists_missing_child(entries_view(entries@), old(nodes)@,
            tree_index.0),
{
    let ghost ev = entries_view(entries@);
    let ghost old_nodes = nodes@;
    let ghost ti = tree_index.0;
    let mut pending_nodes = NodeTable::new();
    let mut pending_children = ParentTable::new();
    assert(flat_children(ev, 0) =~= Seq::<NodeId>::empty());
    let mut i: usize = 0;
    while i < entries.len()
        invariant
            i <= entries@.len(),
            ev == entries_view(entries@),
            ti == tree_index.0,
            nodes@.dom().finite(),
            data_follows(nodes@, old_nodes, ti, latest_data(ev, i as nat)),
            forall|k: (u64, u32)| #[trigger] pending_nodes@.contains_key(k) ==> {
                &&& k.1 == ti
                &&& k.0 != root_local.0
                &&& latest_data(ev, i as nat).contains_key(k.0)
                &&& pending_nodes@[k].data == latest_data(ev, i as nat)[k.0]
                &&& !nodes@.contains_key(k)
                &&& !pending_children@.contains_key(k)
            },
            forall|k: (u64, u32)| #[trigger] seen@.contains(k) <==> (k.1 == ti && flat_children(ev, i as nat).contains(NodeId(k.0))),
            flat_children(ev, i as nat).no_duplicates(),
            old_nodes.dom().subset_of(nodes@.dom()),
            changes.removed@ == Set::<(u64, u32)>::empty(),
            changes_cover(nodes@, old_nodes, changes.added@, changes.updated@, changes.removed@),
            old_nodes == old(nodes)@,
            forall|c: (u64, u32)| #[trigger] dropped_child(ev, old_nodes, ti, i as int, c)
                && c.1 == ti && !seen@.contains(c) && !listed_before(ev, i as int, c.0) ==> unreachable@.contains(c),
            forall|k: (u64, u32)| #[trigger] seen@.contains(k) ==> nodes@.contains_key(k) || pending_children@.contains_key(k),
            forall|k: (u64, u32)| #[trigger] pending_children@.contains_key(k) ==> k.1 == ti
                && seen@.contains(k) && !nodes@.contains_key(k) && !latest_data(ev, i as nat).contains_key(k.0),
            forall|x: u64| #[trigger] latest_data(ev, i as nat).contains_key(x) ==> nodes@.contains_key((x, ti))
                || pending_nodes@.contains_key((x, ti)),
            pending_grafts@.dom() == Set::<u128>::empty() || exists|j: int| 0 <= j < i && (#[trigger] ev[j]).1.tree_id() is Some,
            old_nodes.dom() == Set::<(u64, u32)>::empty() && old(unreachable)@ == Set::<(u64, u32)>::empty()
                ==> unreachable@ == Set::<(u64, u32)>::empty(),
            forall|j: int, m: int| 0 <= j < i && last_listing(ev, j, i as int) && 0 <= m < ev[j].1.children().len()
                && ev[j].1.children()[m].0 != root_local.0 ==> linked_to(nodes@, pending_children@,
                    (#[trigger] ev[j].1.children()[m].0, ti), ((ev[j].0.0, ti), m as usize)),
        decreases entries@.len() - i,
    {
        let x = entries[i].0;
        let d = &entries[i].1;
        let ghost lat = latest_data(ev, i as nat);
        assert(ev[i as int] == (x, d@));
        assert(latest_data(ev, (i + 1) as nat) == lat.insert(x.0, d@));
        assert(flat_children(ev, (i + 1) as nat) == flat_children(ev, i as nat) + d@.children());
        let node_id = FullNodeId::new(x, tree_index);
        let nk = node_id.as_key();
        let ghost unr_a = unreachable@;
        let ghost seen_a = seen@;
        unreachable.remove(nk);
        let ghost unr_b = unreachable@;
        let ghost n_a = nodes@;
        let ghost c_a = pending_children@;
        let linked = link_children(
            nodes, &mut pending_nodes, &mut pending_children, unreachable, seen, pending_grafts,
            changes, node_id, d.children(), Ghost(flat_children(ev, i as nat)), Ghost(old_nodes),
            Ghost(lat), root_local,
        );
        match linked {
            Ok(()) => {
                proof {
                    if pending_grafts@.dom() != Set::<u128>::empty() && !(exists|j: int| 0 <= j < i && (#[trigger] ev[j]).1.tree_id() is Some) {
                        let xx = choose|xx: u64| #[trigger] lat.contains_key(xx) && lat[xx].tree_id() is Some;
                        lemma_latest_from(ev, i as nat, xx);
                        let jj = choose|jj: int| 0 <= jj < i && (#[trigger] ev[jj]).1 == lat[xx];
                        assert(ev[jj].1.tree_id() is Some);
                    }
                }
            },
            Err(e) => {
                proof {
                    if e == TreeError::GraftWithChildren || e == TreeError::GraftOfRootTree || e == TreeError::DuplicateGraft {
                        let xx = choose|xx: u64| #[trigger] lat.contains_key(xx) && lat[xx].tree_id() is Some
                            && (if e == TreeError::GraftWithChildren { lat[xx].children().len() > 0 }
                                else if e == TreeError::GraftOfRootTree { lat[xx].tree_id().unwrap().0 == 0 }
                                else { true });
                        lemma_latest_from(ev, i as nat, xx);
                        let jj = choose|jj: int| 0 <= jj < i && (#[trigger] ev[jj]).1 == lat[xx];
                        assert(ev[jj] == entries_view(entries@)[jj]);
                    }
                    if e == TreeError::DuplicateChild {
                        lemma_flat_prefix(ev, (i + 1) as nat, entries@.len());
                        let f = flat_children(ev, (i + 1) as nat);
                        let g = flat_children(ev, entries@.len());
                        assert(!f.no_duplicates());
                        let (w1, w2) = choose|w1: int, w2: int| 0 <= w1 < f.len() && 0 <= w2 < f.len() && w1 != w2 && f[w1] == f[w2];
                        assert(g[w1] == f[w1]);
                        assert(g[w2] == f[w2]);
                    }
                }
                return Err(e);
            },
        }
        let ghost n0 = nodes@;
        let ghost p0 = pending_nodes@;
        let ghost c0 = pending_children@;
        let ghost a0 = changes.added@;
        let ghost u0 = changes.updated@;
        let ghost unr_c = unreachable@;
        let ghost claimed = first_listing(ev, i as int) && old_nodes.contains_key(nk);
        let ghost pg1 = pending_grafts@;
        assert(ev[i as int].1 == d@);
        match nodes.remove(nk) {
            Some(st) => {
                let ghost st0 = st@;
                let mut st = st;
                if x.0 == root_local.0 {
                    st.parent_and_index = None;
                }
                proof {
                    if claimed {
                        assert(!lat.contains_key(x.0)) by {
                            if lat.contains_key(x.0) {
                                lemma_latest_listed(ev, i as nat, x.0);
                                let k = choose|k: int| 0 <= k < i && #[trigger] ev[k].0.0 == x.0;
                                assert(ev[k].0 == ev[i as int].0);
                            }
                        }
                        assert(n0.contains_key(nk));
                        assert(st0.data == old_nodes[nk].data);
                    }
                }
                let ghost fresh = old_nodes.dom() == Set::<(u64, u32)>::empty()
                    && old(unreachable)@ == Set::<(u64, u32)>::empty();
                proof {
                    if fresh {
                        assert(n0.contains_key(nk));
                        assert(lat.contains_key(x.0)) by {
                            if !lat.contains_key(x.0) {
                                assert(old_nodes.contains_key(nk));
                            }
                        }
                        lemma_latest_from(ev, i as nat, x.0);
                        let jj = choose|jj: int| 0 <= jj < i && (#[trigger] ev[jj]).1 == lat[x.0];
                        assert forall|c: NodeId| #[trigger] st0.data.children().contains(c) implies
                            seen@.contains((c.0, ti)) by {
                            lemma_child_in_flat(ev, jj, i as nat, c);
                            let f = flat_children(ev, i as nat);
                            let w = choose|w: int| 0 <= w < f.len() && f[w] == c;
                            assert((f + d@.children())[w] == c);
                            assert(NodeId(c.0) == c);
                        }
                    }
                }
                mark_unclaimed_children(unreachable, seen, st.data.children(), tree_index);
                proof {
                    if fresh {
                        assert forall|k: (u64, u32)| !#[trigger] unreachable@.contains(k) by {
                            if unreachable@.contains(k) {
                                assert(st0.data.children().contains(NodeId(k.0)));
                                assert(seen@.contains((NodeId(k.0).0, ti)));
                            }
                        }
                        assert(unreachable@ =~= Set::<(u64, u32)>::empty());
                    }
                }
                if !st.data.same_as(d) {
                    if d.tree_id().is_some() && d.children().len() > 0 {
                        assert(ev[i as int].1 == d@);
                        return Err(TreeError::GraftWithChildren);
                    }
                    let old_t = st.data.tree_id();
                    let new_t = d.tree_id();
                    if !same_tree_id(old_t, new_t) {
                        match old_t {
                            Some(o) => {
                                grafts_to_remove.insert(o.0);
                            },
                            None => {},
                        }
                        match new_t {
                            Some(n) => {
                                match record_graft(pending_grafts, n, node_id) {
                                    Ok(()) => {},
                                    Err(e) => {
                                        assert(ev[i as int].1 == d@);
                                        return Err(e);
                                    },
                                }
                            },
                            None => {},
                        }
                    }
                    st.data = d.duplicate();
                    changes.updated.insert(nk);
                }
                nodes.insert(nk, st);
                assert(nodes@.dom() =~= n0.dom());
                assert(nodes@ =~= n0.insert(nk, st@));
                proof {
                    lemma_cover_store(nodes@, n0, old_nodes, a0, u0, changes.removed@, changes.added@,
                        changes.updated@, nk, st@);
                }
            },
            None => {
                assert(nodes@ =~= n0);
                match pending_children.remove(nk) {
                    Some(pai) => {
                        let copy = d.duplicate();
                        let ghost pv = NodeStateView { parent: crate::ids::parent_view(Some(pai)), data: copy@ };
                        match add_node(nodes, pending_grafts, changes, Some(pai), node_id, copy) {
                            Ok(()) => {},
                            Err(e) => {
                                assert(ev[i as int].1 == d@);
                                return Err(e);
                            },
                        }
                        proof {
                            lemma_cover_store(nodes@, n0, old_nodes, a0, u0, changes.removed@, changes.added@,
                                changes.updated@, nk, pv);
                        }
                    },
                    None => {
                        assert(c0 =~= pending_children@);
                        if x.0 == root_local.0 {
                            let copy = d.duplicate();
                            let ghost pv = NodeStateView { parent: None, data: copy@ };
                            match add_node(nodes, pending_grafts, changes, None, node_id, copy) {
                                Ok(()) => {},
                                Err(e) => {
                                    assert(ev[i as int].1 == d@);
                                    return Err(e);
                                },
                            }
                            proof {
                                lemma_cover_store(nodes@, n0, old_nodes, a0, u0, changes.removed@, changes.added@,
                                    changes.updated@, nk, pv);
                            }
                        } else {
                            pending_nodes.insert(nk, NodeState { parent_and_index: None, data: d.duplicate() });
                        }
                    },
                }
            },
        }
        let ghost lat2 = latest_data(ev, (i + 1) as nat);
        proof {
            assert forall|k: (u64, u32), pl: ((u64, u32), usize)| (k.0 != root_local.0 || k.1 != ti)
                && #[trigger] linked_to(n0, c0, k, pl) implies linked_to(nodes@, pending_children@, k, pl) by {
                if k == nk {
                    if n0.contains_key(k) && n0[k].parent == Some(pl) {
                        assert(nodes@.contains_key(k));
                    }
                }
            }
            assert forall|j: int, m: int| 0 <= j < i + 1 && last_listing(ev, j, i + 1) && 0 <= m < ev[j].1.children().len()
                && ev[j].1.children()[m].0 != root_local.0 implies linked_to(nodes@, pending_children@,
                    (#[trigger] ev[j].1.children()[m].0, ti), ((ev[j].0.0, ti), m as usize)) by {
                let ck = (ev[j].1.children()[m].0, ti);
                let pl = ((ev[j].0.0, ti), m as usize);
                if j == i {
                    assert(d@.children()[m] == ev[j].1.children()[m]);
                    assert(linked_to(n0, c0, ck, pl));
                } else {
                    assert(last_listing(ev, j, i as int));
                    assert(ev[i as int].0 != ev[j].0);
                    assert(linked_to(n_a, c_a, ck, pl));
                    assert(!(ck.1 == ti && d@.children().contains(NodeId(ck.0)))) by {
                        if d@.children().contains(NodeId(ck.0)) {
                            let c = ev[j].1.children()[m];
                            assert(NodeId(ck.0) == c);
                            lemma_child_in_flat(ev, j, i as nat, c);
                            let f = flat_children(ev, i as nat);
                            let w1 = choose|w1: int| 0 <= w1 < f.len() && f[w1] == c;
                            let w2 = choose|w2: int| 0 <= w2 < d@.children().len() && d@.children()[w2] == c;
                            assert((f + d@.children())[w1] == c);
                            assert((f + d@.children())[f.len() + w2] == c);
                        }
                    }
                    assert(link_kept(n_a, c_a, n0, c0, ck));
                    assert(linked_to(n0, c0, ck, pl));
                }
            }
        }
        assert(pending_grafts@ == pg1 || d@.tree_id() is Some);
        assert(pending_grafts@.dom() == Set::<u128>::empty() || exists|j: int| 0 <= j < i + 1
            && (#[trigger] ev[j]).1.tree_id() is Some) by {
            if pending_grafts@.dom() != Set::<u128>::empty() {
                if pending_grafts@ != pg1 {
                    assert(ev[i as int].1.tree_id() is Some);
                } else {
                    let jj = choose|jj: int| 0 <= jj < i && (#[trigger] ev[jj]).1.tree_id() is Some;
                    assert(0 <= jj < i + 1);
                }
            }
        }
        assert(pending_children@ =~= c0.remove(nk));
        assert(nodes@.contains_key(nk) || pending_nodes@.contains_key(nk));
        assert forall|k: (u64, u32)| #[trigger] n0.contains_key(k) implies nodes@.contains_key(k) by {}
        assert forall|k: (u64, u32)| #[trigger] p0.contains_key(k) implies pending_nodes@.contains_key(k) by {}
        assert forall|k: (u64, u32)| #[trigger] nodes@.contains_key(k) implies n0.contains_key(k) || k == nk by {}
        assert forall|k: (u64, u32)| #[trigger] seen@.contains(k) implies nodes@.contains_key(k)
            || pending_children@.contains_key(k) by {
            assert(n0.contains_key(k) || c0.contains_key(k));
            if c0.contains_key(k) && k != nk {
                assert(pending_children@.contains_key(k));
            }
        }
        assert forall|k: (u64, u32)| #[trigger] pending_children@.contains_key(k) implies k.1 == ti
            && seen@.contains(k) && !nodes@.contains_key(k) && !lat2.contains_key(k.0) by {
            assert(c0.contains_key(k));
            assert(k != nk);
            assert(!n0.contains_key(k));
            assert(k.0 != x.0);
        }
        assert forall|y: u64| #[trigger] lat2.contains_key(y) implies nodes@.contains_key((y, ti))
            || pending_nodes@.contains_key((y, ti)) by {
            if y != x.0 {
                assert(lat.contains_key(y));
                assert(n0.contains_key((y, ti)) || p0.contains_key((y, ti)));
            }
        }
        assert forall|k: (u64, u32)| #[trigger] nodes@.contains_key(k) implies
            (if k.1 == ti && lat2.contains_key(k.0) {
                nodes@[k].data == lat2[k.0]
            } else {
                old_nodes.contains_key(k) && nodes@[k].data == old_nodes[k].data
            }) by {
            if k != nk {
                assert(n0.contains_key(k));
            }
        }
        assert forall|k: (u64, u32)| #[trigger] pending_nodes@.contains_key(k) implies {
            &&& k.1 == ti
            &&& k.0 != root_local.0
            &&& lat2.contains_key(k.0)
            &&& pending_nodes@[k].data == lat2[k.0]
            &&& !nodes@.contains_key(k)
            &&& !pending_children@.contains_key(k)
        } by {
            if k != nk {
                assert(p0.contains_key(k));
            }
        }
        assert forall|c: (u64, u32)| #[trigger] dropped_child(ev, old_nodes, ti, (i + 1) as int, c)
            && c.1 == ti && !seen@.contains(c) && !listed_before(ev, (i + 1) as int, c.0) implies unreachable@.contains(c) by {
            assert(!seen_a.contains(c)) by {
                if seen_a.contains(c) {
                    let f = flat_children(ev, i as nat);
                    assert(f.contains(NodeId(c.0)));
                    let w = choose|w: int| 0 <= w < f.len() && f[w] == NodeId(c.0);
                    assert((f + d@.children())[w] == NodeId(c.0));
                    assert((f + d@.children()).contains(NodeId(c.0)));
                }
            }
            let j = choose|j: int| #![trigger ev[j]] 0 <= j < i + 1 && first_listing(ev, j) && old_nodes.contains_key((ev[j].0.0, ti))
                && old_nodes[(ev[j].0.0, ti)].data.children().contains(NodeId(c.0));
            if j < i {
                assert(dropped_child(ev, old_nodes, ti, i as int, c));
                assert(!listed_before(ev, i as int, c.0)) by {
                    if listed_before(ev, i as int, c.0) {
                        let k = choose|k: int| 0 <= k < i && #[trigger] ev[k].0.0 == c.0;
                        assert(ev[k].0.0 == c.0 && 0 <= k < i + 1);
                    }
                }
                assert(unr_a.contains(c));
                assert(c != nk) by {
                    assert(ev[i as int].0.0 == x.0);
                }
                assert(unr_b.contains(c));
                assert(unr_c.contains(c));
            } else {
                assert(j == i);
                assert(claimed);
            }
        }
        i = i + 1;
    }
    proof {
        if pending_grafts@.dom() != Set::<u128>::empty() {
            let jj = choose|jj: int| 0 <= jj < entries@.len() && (#[trigger] ev[jj]).1.tree_id() is Some;
            assert(lists_some_graft(ev));
        }
    }
    if !pending_nodes.is_empty() {
        proof {
            let n = entries@.len();
            assert(pending_nodes@.dom() != Set::<(u64, u32)>::empty());
            assert(exists|k: (u64, u32)| pending_nodes@.dom().contains(k)) by {
                if !(exists|k: (u64, u32)| pending_nodes@.dom().contains(k)) {
                    assert(pending_nodes@.dom() =~= Set::<(u64, u32)>::empty());
                }
            }
            let k = choose|k: (u64, u32)| pending_nodes@.dom().contains(k);
            assert(pending_nodes@.contains_key(k));
            lemma_latest_listed(ev, n as nat, k.0);
            let j = choose|j: int| 0 <= j < n && #[trigger] ev[j].0.0 == k.0;
            assert(ev[j].0 == NodeId(k.0));
            assert((ev[j].0.0, ti) == k);
            assert(!seen@.contains(k));
            assert(!flat_children(ev, n as nat).contains(ev[j].0));
            assert(lists_unattached(ev, old_nodes, ti, root_local.0));
        }
        return Err(TreeError::UnattachedNodes);
    }
    if !pending_children.is_empty() {
        proof {
            let n = entries@.len();
            assert(pending_children@.dom() != Set::<(u64, u32)>::empty());
            assert(exists|k: (u64, u32)| pending_children@.dom().contains(k)) by {
                if !(exists|k: (u64, u32)| pending_children@.dom().contains(k)) {
                    assert(pending_children@.dom() =~= Set::<(u64, u32)>::empty());
                }
            }
            let k = choose|k: (u64, u32)| pending_children@.dom().contains(k);
            assert(pending_children@.contains_key(k));
            assert(seen@.contains(k));
            assert(flat_children(ev, n as nat).contains(NodeId(k.0)));
            assert((NodeId(k.0).0, ti) == k);
            if listed_before(ev, n as int, k.0) {
                lemma_listed_latest(ev, n as nat, k.0);
            }
            assert(lists_missing_child(ev, old_nodes, ti));
        }
        return Err(TreeError::MissingChildren);
    }
    Ok(())
}

/// Removing nodes keeps what the data of the remaining nodes follows.
proof fn lemma_data_follows_sub(
    b: Map<(u64, u32), NodeStateView>,
    a: Map<(u64, u32), NodeStateView>,
    old: Map<(u64, u32), NodeStateView>,
    index: u32,
    latest: Map<u64, NodeView>,
)
    requires
        data_follows(a, old, index, latest),
        sub_table(b, a),
    ensures
        data_follows(b, old, index, latest),
{
    assert forall|k: (u64, u32)| #[trigger] b.contains_key(k) implies
        (if k.1 == index && latest.contains_key(k.0) {
            b[k].data == latest[k.0]
        } else {
            old.contains_key(k) && b[k].data == old[k].data
        }) by {
        assert(a.contains_key(k));
    }
}

/// Changing parent links keeps what the data of the nodes follows.
proof fn lemma_data_follows_same(
    b: Map<(u64, u32), NodeStateView>,
    a: Map<(u64, u32), NodeStateView>,
    old: Map<(u64, u32), NodeStateView>,
    index: u32,
    latest: Map<u64, NodeView>,
)
    requires
        data_follows(a, old, index, latest),
        same_data(b, a),
    ensures
        data_follows(b, old, index, latest),
{
    assert forall|k: (u64, u32)| #[trigger] b.contains_key(k) implies
        (if k.1 == index && latest.contains_key(k.0) {
            b[k].data == latest[k.0]
        } else {
            old.contains_key(k) && b[k].data == old[k].data
        }) by {
        assert(a.contains_key(k));
    }
}

/// The keys, in the tree with index `tree_index`, of the children among
/// `children` that are neither in `seen` nor the new root of the tree, in
/// order.
pub open spec fn unclaimed_children(
    children: Seq<NodeId>,
    tree_index: u32,
    seen: Set<(u64, u32)>,
    new_tree_root: Option<FullNodeId>,
) -> Seq<(u64, u32)>
    decreases children.len(),
{
    if children.len() == 0 {
        Seq::empty()
    } else {
        let rest = unclaimed_children(children.drop_last(), tree_index, seen, new_tree_root);
        let k = (children.last().0, tree_index);
        if seen.contains(k) || (new_tree_root is Some && node_key(new_tree_root.unwrap()) == k) {
            rest
        } else {
            rest.push(k)
        }
    }
}

/// Pushes the children of a removed node that are to be removed too.
fn push_unclaimed_children(
    stack: &mut Vec<(u64, u32)>,
    children: &[NodeId],
    tree_index: u32,
    seen: &NodeKeySet,
    new_tree_root: Option<FullNodeId>,
)
    ensures
        final(stack)@ == old(stack)@ + unclaimed_children(children@, tree_index, seen@, new_tree_root),
{
    let mut e: usize = 0;
    while e < children.len()
        invariant
            e <= children@.len(),
            stack@ == old(stack)@ + unclaimed_children(children@.take(e as int), tree_index, seen@, new_tree_root),
        decreases children@.len() - e,
    {
        assert(children@.take(e as int + 1).drop_last() == children@.take(e as int));
        let ck = (children[e].0, tree_index);
        let is_new_root = match new_tree_root {
            Some(r) => r.local.0 == ck.0 && r.tree_index.0 == ck.1,
            None => false,
        };
        if !seen.contains(ck) && !is_new_root {
            stack.push(ck);
        }
        e = e + 1;
    }
    assert(children@.take(children@.len() as int) == children@);
}

/// Removes a node that became unreachable, and its descendants that no
/// node of the update claims. A node that is already gone is passed over.
fn remove_unreachable(
    nodes: &mut NodeTable,
    grafts_to_remove: &mut TreeIdSet,
    changes: &mut InternalChanges,
    seen: &NodeKeySet,
    new_tree_root: Option<FullNodeId>,
    start: (u64, u32),
    Ghost(orig): Ghost<Map<(u64, u32), NodeStateView>>,
)
    requires
        old(nodes)@.dom().finite(),
        changes_cover(old(nodes)@, orig, old(changes).added@, old(changes).updated@, old(changes).removed@),
    ensures
        final(nodes)@.dom().finite(),
        sub_table(final(nodes)@, old(nodes)@),
        changes_cover(final(nodes)@, orig, final(changes).added@, final(changes).updated@, final(changes).removed@),
        !final(nodes)@.contains_key(start),
        final(changes).added@ == old(changes).added@,
        final(changes).updated@ == old(changes).updated@,
{
    let ghost n_start = nodes@;
    let mut stack: Vec<(u64, u32)> = Vec::new();
    stack.push(start);
    let ghost mut started = false;
    while stack.len() > 0
        invariant
            nodes@.dom().finite(),
            sub_table(nodes@, n_start),
            n_start == old(nodes)@,
            changes_cover(nodes@, orig, changes.added@, changes.updated@, changes.removed@),
            changes.added@ == old(changes).added@,
            changes.updated@ == old(changes).updated@,
            !started ==> stack@ == seq![start],
            started ==> !nodes@.contains_key(start),
        decreases nodes@.dom().len(), stack@.len(),
    {
        let id = match stack.pop() {
            Some(id) => id,
            None => {
                return;
            },
        };
        assert(!started ==> id == start);
        let ghost r0 = changes.removed@;
        let ghost n0 = nodes@;
        let node = match nodes.remove(id) {
            Some(node) => node,
            None => {
                assert(nodes@ =~= n0);
                proof { started = true; }
                continue;
            },
        };
        proof { lemma_cover_remove(n0, orig, changes.added@, changes.updated@, r0, id); }
        changes.removed.insert(id);
        assert(nodes@.dom() == n0.dom().remove(id));
        assert(nodes@.dom().len() < n0.dom().len());
        proof { started = true; }
        match node.data.tree_id() {
            Some(sid) => {
                grafts_to_remove.insert(sid.0);
            },
            None => {},
        }
        push_unclaimed_children(&mut stack, node.data.children(), id.1, seen, new_tree_root);
    }
}

/// Removes the nodes of a subtree whose graft node went away, and queues
/// the subtrees grafted within it.
fn remove_subtree_nodes(
    nodes: &mut NodeTable,
    to_remove: &mut Vec<u128>,
    queued: &mut TreeIdSet,
    changes: &mut InternalChanges,
    root: FullNodeId,
    Ghost(orig): Ghost<Map<(u64, u32), NodeStateView>>,
)
    requires
        old(nodes)@.dom().finite(),
        changes_cover(old(nodes)@, orig, old(changes).added@, old(changes).updated@, old(changes).removed@),
    ensures
        changes_cover(final(nodes)@, orig, final(changes).added@, final(changes).updated@, final(changes).removed@),
        final(changes).added@ == old(changes).added@,
        final(changes).updated@ == old(changes).updated@,
        final(nodes)@.dom().finite(),
        sub_table(final(nodes)@, old(nodes)@),
        old(to_remove)@.len() <= final(to_remove)@.len(),
        final(to_remove)@.len() - old(to_remove)@.len() <= old(nodes)@.dom().len() - final(nodes)@.dom().len(),
        forall|w: int| 0 <= w < old(to_remove)@.len() ==> #[trigger] final(to_remove)@[w] == old(to_remove)@[w],
        !final(nodes)@.contains_key(node_key(root)),
        children_removed_too(old(nodes)@, final(nodes)@),
{
    let ghost n_start = nodes@;
    let ghost t_start = to_remove@;
    let mut stack: Vec<(u64, u32)> = Vec::new();
    stack.push(root.as_key());
    while stack.len() > 0
        invariant
            !nodes@.contains_key(node_key(root)) || stack@ == seq![node_key(root)],
            forall|k: (u64, u32), c: int| n_start.contains_key(k) && !nodes@.contains_key(k)
                && 0 <= c < n_start[k].data.children().len()
                && #[trigger] nodes@.contains_key((n_start[k].data.children()[c].0, k.1))
                ==> stack@.contains((n_start[k].data.children()[c].0, k.1)),
            nodes@.dom().finite(),
            sub_table(nodes@, n_start),
            n_start.dom().finite(),
            nodes@.dom().subset_of(n_start.dom()),
            t_start.len() <= to_remove@.len(),
            to_remove@.len() - t_start.len() <= n_start.dom().len() - nodes@.dom().len(),
            forall|w: int| 0 <= w < t_start.len() ==> #[trigger] to_remove@[w] == t_start[w],
            changes_cover(nodes@, orig, changes.added@, changes.updated@, changes.removed@),
            changes.added@ == old(changes).added@,
            changes.updated@ == old(changes).updated@,
        ensures
            stack@.len() == 0,
        decreases nodes@.dom().len(), stack@.len(),
    {
        let ghost stack_pre = stack@;
        let id = match stack.pop() {
            Some(id) => id,
            None => {
                break;
            },
        };
        let ghost n0 = nodes@;
        proof { lemma_cover_remove(n0, orig, changes.added@, changes.updated@, changes.removed@, id); }
        proof {
            assert forall|x: (u64, u32)| x != id && #[trigger] stack_pre.contains(x) implies stack@.contains(x) by {
                let w = choose|w: int| 0 <= w < stack_pre.len() && stack_pre[w] == x;
                assert(w != stack_pre.len() - 1);
                assert(stack@[w] == x);
            }
        }
        let node = match nodes.remove(id) {
            Some(node) => node,
            None => {
                assert(nodes@ =~= n0);
                proof {
                    assert forall|k: (u64, u32), c: int| n_start.contains_key(k) && !nodes@.contains_key(k)
                        && 0 <= c < n_start[k].data.children().len()
                        && #[trigger] nodes@.contains_key((n_start[k].data.children()[c].0, k.1))
                        implies stack@.contains((n_start[k].data.children()[c].0, k.1)) by {
                        let ck = (n_start[k].data.children()[c].0, k.1);
                        assert(stack_pre.contains(ck));
                    }
                }
                continue;
            },
        };
        assert(nodes@.dom() == n0.dom().remove(id));
        assert(nodes@.dom().len() < n0.dom().len());
        changes.removed.insert(id);
        match node.data.tree_id() {
            Some(sid) => {
                if queued.insert(sid.0) {
                    to_remove.push(sid.0);
                }
            },
            None => {},
        }
        let ch = node.data.children();
        let ghost stack0 = stack@;
        let mut e: usize = 0;
        while e < ch.len()
            invariant
                e <= ch@.len(),
                stack@.len() == stack0.len() + e,
                forall|w: int| 0 <= w < stack0.len() ==> #[trigger] stack@[w] == stack0[w],
                forall|w: int| 0 <= w < e ==> #[trigger] stack@[stack0.len() + w] == (ch@[w].0, id.1),
            decreases ch@.len() - e,
        {
            stack.push((ch[e].0, id.1));
            e = e + 1;
        }
        proof {
            assert forall|k: (u64, u32), c: int| n_start.contains_key(k) && !nodes@.contains_key(k)
                && 0 <= c < n_start[k].data.children().len()
                && #[trigger] nodes@.contains_key((n_start[k].data.children()[c].0, k.1))
                implies stack@.contains((n_start[k].data.children()[c].0, k.1)) by {
                let ck = (n_start[k].data.children()[c].0, k.1);
                if k == id {
                    assert(n_start[k].data.children() == ch@);
                    assert(stack@[stack0.len() + c] == ck);
                } else {
                    assert(n0.contains_key(ck));
                    assert(!n0.contains_key(k));
                    assert(stack_pre.contains(ck));
                    assert(ck != id);
                    assert(stack0.contains(ck));
                    let w = choose|w: int| 0 <= w < stack0.len() && stack0[w] == ck;
                    assert(stack@[w] == ck);
                }
            }
        }
    }
    proof {
        vstd::set_lib::lemma_len_subset(nodes@.dom(), n_start.dom());
    }
}

/// Every node removed from `old` to `new` had its stored children, in
/// its own tree, removed too.
pub open spec fn children_removed_too(
    old: Map<(u64, u32), NodeStateView>,
    new: Map<(u64, u32), NodeStateView>,
) -> bool {
    forall|k: (u64, u32), c: int| old.contains_key(k) && !new.contains_key(k)
        && 0 <= c < old[k].data.children().len()
        ==> !(#[trigger] new.contains_key((old[k].data.children()[c].0, k.1)))
}

/// Removes the subtrees whose graft node went away in this update (unless
/// the update grafts them anew), with every subtree grafted within them.
fn remove_grafted_subtrees(
    nodes: &mut NodeTable,
    subtrees: &mut SubtreeTable,
    graft_parents: &mut GraftTable,
    pending_grafts: &GraftTable,
    changes: &mut InternalChanges,
    grafts_to_remove: TreeIdSet,
    Ghost(orig): Ghost<Map<(u64, u32), NodeStateView>>,
)
    requires
        old(nodes)@.dom().finite(),
        changes_cover(old(nodes)@, orig, old(changes).added@, old(changes).updated@, old(changes).removed@),
    ensures
        changes_cover(final(nodes)@, orig, final(changes).added@, final(changes).updated@, final(changes).removed@),
        final(changes).added@ == old(changes).added@,
        final(changes).updated@ == old(changes).updated@,
        final(nodes)@.dom().finite(),
        sub_table(final(nodes)@, old(nodes)@),
        forall|t: u128| #[trigger] final(subtrees)@.contains_key(t) ==>
            old(subtrees)@.contains_key(t) && final(subtrees)@[t] == old(subtrees)@[t],
        forall|t: u128| #[trigger] final(graft_parents)@.contains_key(t) ==>
            old(graft_parents)@.contains_key(t) && final(graft_parents)@[t] == old(graft_parents)@[t],
        forall|t: u128| #[trigger] grafts_to_remove@.contains(t) ==> !final(graft_parents)@.contains_key(t)
            && (old(graft_parents)@.contains_key(t) && !pending_grafts@.contains_key(t) ==> !final(subtrees)@.contains_key(t)),
        old(graft_parents)@.dom() == Set::<u128>::empty() ==> final(nodes)@ == old(nodes)@
            && final(subtrees)@ == old(subtrees)@,
{
    let ghost n_start = nodes@;
    let ghost s_start = subtrees@;
    let ghost g_start = graft_parents@;
    let ghost initial = grafts_to_remove@;
    let mut queued = grafts_to_remove;
    let mut to_remove = queued.to_vec();
    let ghost first = to_remove@;
    let mut i: usize = 0;
    while i < to_remove.len()
        invariant
            i <= to_remove@.len(),
            first.len() <= to_remove@.len(),
            forall|w: int| 0 <= w < first.len() ==> #[trigger] to_remove@[w] == first[w],
            forall|t: u128| #[trigger] initial.contains(t) ==> first.contains(t),
            forall|j: int| 0 <= j < i ==> !graft_parents@.contains_key(#[trigger] to_remove@[j])
                && (g_start.contains_key(to_remove@[j]) && !pending_grafts@.contains_key(to_remove@[j])
                    ==> !subtrees@.contains_key(to_remove@[j])),
            forall|t: u128| #[trigger] g_start.contains_key(t) && !graft_parents@.contains_key(t)
                ==> exists|j: int| 0 <= j < i && #[trigger] to_remove@[j] == t,
            nodes@.dom().finite(),
            sub_table(nodes@, n_start),
            n_start == old(nodes)@,
            s_start == old(subtrees)@,
            g_start == old(graft_parents)@,
            forall|t: u128| #[trigger] subtrees@.contains_key(t) ==> s_start.contains_key(t) && subtrees@[t] == s_start[t],
            forall|t: u128| #[trigger] graft_parents@.contains_key(t) ==> g_start.contains_key(t) && graft_parents@[t] == g_start[t],
            changes_cover(nodes@, orig, changes.added@, changes.updated@, changes.removed@),
            changes.added@ == old(changes).added@,
            changes.updated@ == old(changes).updated@,
            g_start.dom() == Set::<u128>::empty() ==> nodes@ == n_start && subtrees@ == s_start,
        decreases nodes@.dom().len() + to_remove@.len() - i,
    {
        let sid = to_remove[i];
        let ghost i0 = i as int;
        let ghost t0 = to_remove@;
        i = i + 1;
        let ghost g0 = graft_parents@;
        let ghost sub0 = subtrees@;
        let removed = graft_parents.remove(sid);
        assert forall|t: u128| #[trigger] graft_parents@.contains_key(t) implies
            g_start.contains_key(t) && graft_parents@[t] == g_start[t] by {
            assert(g0.contains_key(t));
        }
        assert forall|t: u128| #[trigger] g_start.contains_key(t) && !graft_parents@.contains_key(t)
            implies exists|j: int| 0 <= j < i && #[trigger] to_remove@[j] == t by {
            if t == sid {
                assert(to_remove@[i0] == t);
            } else {
                assert(!g0.contains_key(t));
            }
        }
        assert(g_start.dom() == Set::<u128>::empty() ==> !g0.contains_key(sid));
        if removed.is_none() {
            proof {
                if g_start.contains_key(sid) && !pending_grafts@.contains_key(sid) {
                    let j = choose|j: int| 0 <= j < i0 && #[trigger] t0[j] == sid;
                    assert(!subtrees@.contains_key(t0[j]));
                }
            }
            continue;
        }
        if pending_grafts.contains_key(sid) {
            continue;
        }
        let ghost s0 = subtrees@;
        let removed_subtree = subtrees.remove(sid);
        assert forall|t: u128| #[trigger] subtrees@.contains_key(t) implies
            s_start.contains_key(t) && subtrees@[t] == s_start[t] by {
            assert(s0.contains_key(t));
        }
        match removed_subtree {
            Some(st) => {
                let ghost n0 = nodes@;
                let ghost t1 = to_remove@;
                remove_subtree_nodes(nodes, &mut to_remove, &mut queued, changes, st.root, Ghost(orig));
                proof {
                    assert forall|k: (u64, u32)| #[trigger] nodes@.contains_key(k) implies
                        n_start.contains_key(k) && nodes@[k] == n_start[k] by {
                        assert(n0.contains_key(k));
                    }
                    assert forall|w: int| 0 <= w < t1.len() implies #[trigger] to_remove@[w] == t1[w] by {
                        assert(to_remove@[w] == t1[w]);
                    }
                    assert forall|t: u128| #[trigger] g_start.contains_key(t) && !graft_parents@.contains_key(t)
                        implies exists|j: int| 0 <= j < i && #[trigger] to_remove@[j] == t by {
                        let j = choose|j: int| 0 <= j < i && #[trigger] t1[j] == t;
                        assert(to_remove@[j] == t1[j]);
                    }
                }
            },
            None => {},
        }
    }
    proof {
        assert forall|t: u128| #[trigger] grafts_to_remove@.contains(t) implies !graft_parents@.contains_key(t)
            && (g_start.contains_key(t) && !pending_grafts@.contains_key(t) ==> !subtrees@.contains_key(t)) by {
            assert(first.contains(t));
            let w = choose|w: int| 0 <= w < first.len() && first[w] == t;
            assert(to_remove@[w] == t);
        }
    }
}

/// Makes each graft node of this update the parent of its subtree's root.
fn apply_grafts(
    nodes: &mut NodeTable,
    subtrees: &SubtreeTable,
    graft_parents: &mut GraftTable,
    pending_grafts: &GraftTable,
    changes: &mut InternalChanges,
) -> (r: Result<(), TreeError>)
    requires
        old(nodes)@.dom().finite(),
    ensures
        final(nodes)@.dom().finite(),
        same_data(final(nodes)@, old(nodes)@),
        final(changes).added@ == old(changes).added@,
        old(changes).updated@.subset_of(final(changes).updated@),
        final(changes).removed@ == old(changes).removed@,
        r is Err ==> r == Err::<(), TreeError>(TreeError::DuplicateGraft),
        r is Err <==> exists|t: u128| #[trigger] pending_grafts@.contains_key(t) && old(graft_parents)@.contains_key(t),
        r is Ok ==> final(graft_parents)@ == old(graft_parents)@.union_prefer_right(pending_grafts@),
        r is Ok ==> forall|k: (u64, u32)| #[trigger] final(nodes)@.contains_key(k) ==> grafted_parent(
            old(nodes)@, subtrees@, pending_grafts@, k, final(nodes)@[k].parent),
{
    let ghost n_start = nodes@;
    let ghost gp_start = graft_parents@;
    let entries = pending_grafts.entries();
    let ghost es = entries@;
    let mut i: usize = 0;
    while i < entries.len()
        invariant
            i <= entries@.len(),
            es == entries@,
            nodes@.dom().finite(),
            same_data(nodes@, n_start),
            n_start == old(nodes)@,
            gp_start == old(graft_parents)@,
            changes.added@ == old(changes).added@,
            old(changes).updated@.subset_of(changes.updated@),
            changes.removed@ == old(changes).removed@,
            forall|i1: int, j1: int| 0 <= i1 < j1 < es.len() ==> #[trigger] es[i1].0 != #[trigger] es[j1].0,
            forall|j: int| 0 <= j < es.len() ==> pending_grafts@.contains_key(#[trigger] es[j].0)
                && node_key(es[j].1) == pending_grafts@[es[j].0],
            forall|j: int| 0 <= j < i ==> !gp_start.contains_key(#[trigger] es[j].0),
            forall|t: u128| #[trigger] graft_parents@.contains_key(t) <==> (gp_start.contains_key(t) || done_before(es, i as int, t)),
            forall|t: u128| #[trigger] graft_parents@.contains_key(t) ==> graft_parents@[t] == if done_before(es, i as int, t) {
                pending_grafts@[t]
            } else {
                gp_start[t]
            },
            forall|k: (u64, u32)| #[trigger] nodes@.contains_key(k) ==> grafted_parent(
                n_start, subtrees@, Map::new(|t: u128| done_before(es, i as int, t), |t: u128| pending_grafts@[t]), k, nodes@[k].parent),
        decreases entries@.len() - i,
    {
        let (sid, gid) = entries[i];
        assert(sid == es[i as int].0 && gid == es[i as int].1);
        assert(pending_grafts@.contains_key(es[i as int].0));
        if graft_parents.contains_key(sid) {
            proof {
                if !gp_start.contains_key(sid) {
                    assert(graft_parents@.contains_key(sid));
                    assert(done_before(es, i as int, sid));
                    let j = choose|j: int| 0 <= j < i && #[trigger] es[j].0 == sid;
                    assert(0 <= j < i);
                    assert(es[j].0 != es[i as int].0);
                }
                assert(pending_grafts@.contains_key(sid) && gp_start.contains_key(sid));
            }
            return Err(TreeError::DuplicateGraft);
        }
        let ghost gp0 = graft_parents@;
        let ghost m0 = Map::new(|t: u128| done_before(es, i as int, t), |t: u128| pending_grafts@[t]);
        let ghost m1 = Map::new(|t: u128| done_before(es, i as int + 1, t), |t: u128| pending_grafts@[t]);
        proof {
            assert forall|t: u128| done_before(es, i as int + 1, t) <==> (done_before(es, i as int, t) || t == sid) by {
                if t == sid {
                    assert(es[i as int].0 == t);
                }
                if done_before(es, i as int + 1, t) && t != sid {
                    let j = choose|j: int| 0 <= j < i + 1 && #[trigger] es[j].0 == t;
                    assert(j < i);
                }
                if done_before(es, i as int, t) {
                    let j = choose|j: int| 0 <= j < i && #[trigger] es[j].0 == t;
                    assert(0 <= j < i + 1 && es[j].0 == t);
                }
            }
            assert(m1 =~= m0.insert(sid, pending_grafts@[sid]));
        }
        graft_parents.insert(sid, gid);
        let ghost nodes0 = nodes@;
        match subtrees.get(sid) {
            Some(st) => {
                let rk = st.root.as_key();
                let ghost n0 = nodes@;
                match nodes.remove(rk) {
                    Some(rs) => {
                        let mut rs = rs;
                        rs.parent_and_index = Some(ParentAndIndex(gid, 0));
                        nodes.insert(rk, rs);
                        assert(nodes@.dom() =~= n0.dom());
                        assert(nodes@[rk].parent == Some((pending_grafts@[sid], 0usize)));
                        assert(forall|k: (u64, u32)| k != rk && #[trigger] nodes@.contains_key(k) ==> nodes@[k] == n0[k]);
                        if !changes.added.contains(rk) {
                            changes.updated.insert(rk);
                        }
                    },
                    None => {
                        assert(nodes@ =~= n0);
                    },
                }
                assert(subtrees@.contains_key(sid) && subtrees@[sid].0 == rk);
                assert(forall|k: (u64, u32)| k != rk && #[trigger] nodes@.contains_key(k) ==> nodes@[k] == nodes0[k]);
                assert(nodes@.contains_key(rk) ==> nodes@[rk].parent == Some((pending_grafts@[sid], 0usize)));
            },
            None => {
                assert(nodes@ == nodes0);
            },
        }
        proof {
            assert forall|k: (u64, u32)| #[trigger] nodes@.contains_key(k) implies grafted_parent(
                n_start, subtrees@, m1, k, nodes@[k].parent) by {
                assert(nodes0.contains_key(k));
                assert(grafted_parent(n_start, subtrees@, m0, k, nodes0[k].parent));
                if subtrees@.contains_key(sid) && subtrees@[sid].0 == k {
                    assert(m1.contains_key(sid) && m1[sid] == pending_grafts@[sid]);
                    assert(nodes@[k].parent == Some((pending_grafts@[sid], 0usize)));
                    assert(m1.contains_key(sid) && subtrees@.contains_key(sid) && subtrees@[sid].0 == k
                        && nodes@[k].parent == Some((m1[sid], 0usize)));
                } else {
                    assert(nodes@[k].parent == nodes0[k].parent);
                    if exists|t: u128| #[trigger] m1.contains_key(t) && subtrees@.contains_key(t) && subtrees@[t].0 == k {
                        let t = choose|t: u128| #[trigger] m1.contains_key(t) && subtrees@.contains_key(t) && subtrees@[t].0 == k;
                        assert(t != sid);
                        assert(m0.contains_key(t));
                        let t2 = choose|t2: u128| #[trigger] m0.contains_key(t2) && subtrees@.contains_key(t2)
                            && subtrees@[t2].0 == k && nodes0[k].parent == Some((m0[t2], 0usize));
                        assert(m1.contains_key(t2) && m1[t2] == m0[t2]);
                        assert(m1.contains_key(t2) && subtrees@.contains_key(t2) && subtrees@[t2].0 == k
                            && nodes@[k].parent == Some((m1[t2], 0usize)));
                    } else {
                        assert(!exists|t: u128| #[trigger] m0.contains_key(t) && subtrees@.contains_key(t) && subtrees@[t].0 == k) by {
                            if exists|t: u128| #[trigger] m0.contains_key(t) && subtrees@.contains_key(t) && subtrees@[t].0 == k {
                                let t = choose|t: u128| #[trigger] m0.contains_key(t) && subtrees@.contains_key(t) && subtrees@[t].0 == k;
                                assert(m1.contains_key(t));
                            }
                        }
                    }
                }
            }
        }
        i = i + 1;
    }
    proof {
        let m = Map::new(|t: u128| done_before(es, es.len() as int, t), |t: u128| pending_grafts@[t]);
        assert forall|t: u128| done_before(es, es.len() as int, t) <==> #[trigger] pending_grafts@.contains_key(t) by {
            if pending_grafts@.contains_key(t) {
                let j = choose|j: int| 0 <= j < es.len() && #[trigger] es[j].0 == t;
            }
        }
        assert(m =~= pending_grafts@);
        assert(graft_parents@ =~= gp_start.union_prefer_right(pending_grafts@));
        assert forall|t: u128| #[trigger] pending_grafts@.contains_key(t) implies !gp_start.contains_key(t) by {
            let j = choose|j: int| 0 <= j < es.len() && #[trigger] es[j].0 == t;
        }
    }
    Ok(())
}

/// Some of the first `i` entries is for tree `t`.
pub open spec fn done_before(es: Seq<(u128, FullNodeId)>, i: int, t: u128) -> bool {
    exists|j: int| 0 <= j < i && #[trigger] es[j].0 == t
}

/// The parent `p` that stored node `k` has once the grafts `pending` are
/// applied: that of a graft node whose subtree's root `k` is, if there is
/// one, and otherwise the parent it had.
pub open spec fn grafted_parent(
    nodes: Map<(u64, u32), NodeStateView>,
    subtrees: Map<u128, ((u64, u32), (u64, u32))>,
    pending: Map<u128, (u64, u32)>,
    k: (u64, u32),
    p: Option<((u64, u32), usize)>,
) -> bool {
    if exists|t: u128| #[trigger] pending.contains_key(t) && subtrees.contains_key(t) && subtrees[t].0 == k {
        exists|t: u128| #[trigger] pending.contains_key(t) && subtrees.contains_key(t) && subtrees[t].0 == k
            && p == Some((pending[t], 0usize))
    } else {
        p == nodes[k].parent
    }
}

/// Makes the graft node of the updated tree the parent of its new root.
fn attach_new_root(
    nodes: &mut NodeTable,
    graft_parents: &GraftTable,
    changes: &mut InternalChanges,
    tree_id: TreeId,
    new_root: FullNodeId,
)
    requires
        old(nodes)@.dom().finite(),
    ensures
        final(nodes)@.dom().finite(),
        same_data(final(nodes)@, old(nodes)@),
        final(changes).added@ == old(changes).added@,
        old(changes).updated@.subset_of(final(changes).updated@),
        final(changes).removed@ == old(changes).removed@,
        final(nodes)@ == if graft_parents@.contains_key(tree_id.0) && old(nodes)@.contains_key(node_key(new_root)) {
            old(nodes)@.insert(node_key(new_root), NodeStateView {
                parent: Some((graft_parents@[tree_id.0], 0usize)),
                data: old(nodes)@[node_key(new_root)].data,
            })
        } else {
            old(nodes)@
        },
        final(changes).updated@ == if graft_parents@.contains_key(tree_id.0) && old(nodes)@.contains_key(node_key(new_root))
            && !old(changes).added@.contains(node_key(new_root)) {
            old(changes).updated@.insert(node_key(new_root))
        } else {
            old(changes).updated@
        },
{
    match graft_parents.get(tree_id.0) {
        Some(gid) => {
            let rk = new_root.as_key();
            let ghost n0 = nodes@;
            match nodes.remove(rk) {
                Some(rs) => {
                    let mut rs = rs;
                    rs.parent_and_index = Some(ParentAndIndex(gid, 0));
                    nodes.insert(rk, rs);
                    proof {
                        crate::ids::lemma_key_roundtrip(gid);
                    }
                    assert(nodes@.dom() =~= n0.dom());
                    if !changes.added.contains(rk) {
                        changes.updated.insert(rk);
                    }
                },
                None => {
                    assert(nodes@ =~= n0);
                },
            }
        },
        None => {},
    }
}

/// Removes each node of `ids` that became unreachable, with the
/// descendants that no node of the update claims.
fn remove_all_unreachable(
    nodes: &mut NodeTable,
    grafts_to_remove: &mut TreeIdSet,
    changes: &mut InternalChanges,
    seen: &NodeKeySet,
    new_tree_root: Option<FullNodeId>,
    ids: &Vec<(u64, u32)>,
    Ghost(orig): Ghost<Map<(u64, u32), NodeStateView>>,
)
    requires
        old(nodes)@.dom().finite(),
        changes_cover(old(nodes)@, orig, old(changes).added@, old(changes).updated@, old(changes).removed@),
    ensures
        changes_cover(final(nodes)@, orig, final(changes).added@, final(changes).updated@, final(changes).removed@),
        forall|k: (u64, u32)| #[trigger] ids@.contains(k) ==> !final(nodes)@.contains_key(k),
        ids@.len() == 0 ==> final(nodes)@ == old(nodes)@,
        final(changes).added@ == old(changes).added@,
        final(changes).updated@ == old(changes).updated@,
        final(nodes)@.dom().finite(),
        sub_table(final(nodes)@, old(nodes)@),
{
    let ghost n_start = nodes@;
    let mut u: usize = 0;
    while u < ids.len()
        invariant
            u <= ids@.len(),
            nodes@.dom().finite(),
            sub_table(nodes@, n_start),
            n_start == old(nodes)@,
            changes_cover(nodes@, orig, changes.added@, changes.updated@, changes.removed@),
            changes.added@ == old(changes).added@,
            changes.updated@ == old(changes).updated@,
            forall|w: int| 0 <= w < u ==> !nodes@.contains_key(#[trigger] ids@[w]),
            ids@.len() == 0 ==> nodes@ == n_start,
        decreases ids@.len() - u,
    {
        let ghost n0 = nodes@;
        remove_unreachable(nodes, grafts_to_remove, changes, seen, new_tree_root, ids[u], Ghost(orig));
        assert forall|k: (u64, u32)| #[trigger] nodes@.contains_key(k) implies
            n_start.contains_key(k) && nodes@[k] == n_start[k] by {
            assert(n0.contains_key(k));
        }
        assert forall|w: int| 0 <= w < u + 1 implies !nodes@.contains_key(#[trigger] ids@[w]) by {
            if w < u {
                assert(!n0.contains_key(ids@[w]));
            }
        }
        u = u + 1;
    }
    assert forall|k: (u64, u32)| #[trigger] ids@.contains(k) implies !nodes@.contains_key(k) by {
        let w = choose|w: int| 0 <= w < ids@.len() && ids@[w] == k;
        assert(!nodes@.contains_key(ids@[w]));
    }
}

impl TreeState {
    /// The node that has the focus: starting from the root tree's focus,
    /// while the focus is on a graft node, it moves on to the focus of the
    /// grafted subtree. Without a record for the root tree, the stored focus.
    fn compute_effective_focus(&self) -> (r: Result<FullNodeId, TreeError>)
        ensures
            !self.subtrees_view().contains_key(0) ==> r == Ok::<FullNodeId, TreeError>(self.focus_view()),
            self.subtrees_view().contains_key(0) ==> match follow_focus(
                self.nodes_view(),
                self.subtrees_view(),
                self.subtrees_view()[0].1,
                self.subtrees_view().dom().len(),
            ) {
                FocusOutcome::Found(k) => r == Ok::<FullNodeId, TreeError>(key_node(k)),
                FocusOutcome::MissingSubtree => r == Err::<FullNodeId, TreeError>(TreeError::FocusOnEmptyGraft),
                FocusOutcome::NoEnd => r == Err::<FullNodeId, TreeError>(TreeError::FocusCycle),
            },
    {
        let root_subtree = match self.subtrees.get(0) {
            Some(s) => s,
            None => {
                return Ok(self.focus);
            },
        };
        let ghost nv = self.nodes_view();
        let ghost sv = self.subtrees_view();
        let ghost goal = follow_focus(nv, sv, sv[0].1, sv.dom().len());
        let mut cur = root_subtree.focus;
        let mut fuel: usize = self.subtrees.len();
        loop
            invariant
                nv == self.nodes_view(),
                sv == self.subtrees_view(),
                sv.contains_key(0),
                goal == follow_focus(nv, sv, sv[0].1, sv.dom().len()),
                follow_focus(nv, sv, node_key(cur), fuel as nat) == goal,
            decreases fuel,
        {
            proof { crate::ids::lemma_key_roundtrip(cur); }
            let st = match self.nodes.get(cur.as_key()) {
                Some(st) => st,
                None => {
                    return Ok(cur);
                },
            };
            let t = match st.data.tree_id() {
                Some(t) => t,
                None => {
                    return Ok(cur);
                },
            };
            let s = match self.subtrees.get(t.0) {
                Some(s) => s,
                None => {
                    return Err(TreeError::FocusOnEmptyGraft);
                },
            };
            if fuel == 0 {
                return Err(TreeError::FocusCycle);
            }
            fuel = fuel - 1;
            cur = s.focus;
        }
    }

    /// Applies an update to the tree: the nodes it lists replace or join
    /// the stored ones, nodes that no longer hang from the tree are removed
    /// (with the subtrees grafted below them), graft nodes are joined to
    /// their subtrees, and the focus is recomputed. The nodes that were
    /// added, changed and removed are recorded in `changes`.
    pub fn update(&mut self, update: TreeUpdate, is_host_focused: bool, changes: &mut InternalChanges) -> (r: Result<(), TreeError>)
        requires
            old(self).inner_wf(),
            old(changes).added@ == Set::<(u64, u32)>::empty(),
            old(changes).updated@ == Set::<(u64, u32)>::empty(),
            old(changes).removed@ == Set::<(u64, u32)>::empty(),
        ensures
            r == Err::<(), TreeError>(TreeError::TooManyTrees) <==> (
                !old(self).index_map().index_of().contains_key(update.tree_id.0)
                && old(self).index_map().next_index() == u32::MAX),
            r == Err::<(), TreeError>(TreeError::SubtreeWithoutGraft) <==> (
                !(!old(self).index_map().index_of().contains_key(update.tree_id.0)
                    && old(self).index_map().next_index() == u32::MAX)
                && update.tree_id.0 != 0 && update.tree is Some
                && !old(self).grafts_view().contains_key(update.tree_id.0)),
            r == Err::<(), TreeError>(TreeError::UnknownSubtree) <==> (
                !(!old(self).index_map().index_of().contains_key(update.tree_id.0)
                    && old(self).index_map().next_index() == u32::MAX)
                && update.tree_id.0 != 0 && update.tree is None
                && !old(self).subtrees_view().contains_key(update.tree_id.0)),
            r == Err::<(), TreeError>(TreeError::DuplicateChild) ==>
                !flat_children(entries_view(update.nodes@), update.nodes@.len()).no_duplicates(),
            r is Err ==> is_update_error(r->Err_0),
            r == Err::<(), TreeError>(TreeError::GraftWithChildren) ==> lists_graft_with_children(entries_view(update.nodes@)),
            r == Err::<(), TreeError>(TreeError::GraftOfRootTree) ==> lists_root_graft(entries_view(update.nodes@)),
            r == Err::<(), TreeError>(TreeError::DuplicateGraft) ==> lists_some_graft(entries_view(update.nodes@)),
            r is Err ==> update_faulty(*old(self), update, final(self).index_map().index_of()[update.tree_id.0])
                || focus_or_root_lost(*final(self)),
            sound_first_update(*old(self), update) ==> r is Ok,
            sound_first_update(*old(self), update) ==> final(self).subtrees_view().dom() == set![0u128]
                && final(self).subtrees_view()[0].0 == node_key(old(self).root_view()),
            sound_first_update(*old(self), update) ==> forall|x: u64|
                #[trigger] latest_data(entries_view(update.nodes@), update.nodes@.len()).contains_key(x)
                ==> final(self).nodes_view().contains_key((x, old(self).index_map().index_of()[0])),
            r is Ok ==> forall|j: int, m: int| 0 <= j < update.nodes@.len()
                && last_listing(entries_view(update.nodes@), j, update.nodes@.len() as int)
                && 0 <= m < entries_view(update.nodes@)[j].1.children().len()
                && entries_view(update.nodes@)[j].1.children()[m].0 != update_root_local(*old(self), update) ==> {
                    let idx = final(self).index_map().index_of()[update.tree_id.0];
                    let ck = (#[trigger] entries_view(update.nodes@)[j].1.children()[m].0, idx);
                    final(self).nodes_view().contains_key(ck) ==> (
                        final(self).nodes_view()[ck].parent == Some(((entries_view(update.nodes@)[j].0.0, idx), m as usize))
                        || exists|t: u128| #[trigger] final(self).subtrees_view().contains_key(t)
                            && final(self).subtrees_view()[t].0 == ck)
                },
            old(self).index_map().index_of().contains_key(update.tree_id.0) ==>
                final(self).index_map().index_of()[update.tree_id.0] == old(self).index_map().index_of()[update.tree_id.0],
            r == Err::<(), TreeError>(TreeError::UnattachedNodes) ==> lists_unattached(entries_view(update.nodes@),
                old(self).nodes_view(), final(self).index_map().index_of()[update.tree_id.0], update_root_local(*old(self), update)),
            r == Err::<(), TreeError>(TreeError::MissingChildren) ==> lists_missing_child(entries_view(update.nodes@),
                old(self).nodes_view(), final(self).index_map().index_of()[update.tree_id.0]),
            r == Err::<(), TreeError>(TreeError::RootNotInTree) ==>
                !final(self).nodes_view().contains_key(node_key(final(self).root_view())),
            r == Err::<(), TreeError>(TreeError::FocusNotInTree) ==>
                !final(self).nodes_view().contains_key(node_key(final(self).focus_view())),
            r == Err::<(), TreeError>(TreeError::FocusOnEmptyGraft) ==> final(self).subtrees_view().contains_key(0)
                && follow_focus(final(self).nodes_view(), final(self).subtrees_view(), final(self).subtrees_view()[0].1,
                    final(self).subtrees_view().dom().len()) == FocusOutcome::MissingSubtree,
            r == Err::<(), TreeError>(TreeError::FocusCycle) ==> final(self).subtrees_view().contains_key(0)
                && follow_focus(final(self).nodes_view(), final(self).subtrees_view(), final(self).subtrees_view()[0].1,
                    final(self).subtrees_view().dom().len()) == FocusOutcome::NoEnd,
            r is Ok ==> {
                let idx = final(self).index_map().index_of()[update.tree_id.0];
                &&& final(self).wf()
                &&& final(self).host_focused() == is_host_focused
                &&& final(self).index_map().index_of().contains_key(update.tree_id.0)
                &&& old(self).index_map().index_of().contains_key(update.tree_id.0) ==> {
                    &&& final(self).index_map().index_of() == old(self).index_map().index_of()
                    &&& final(self).index_map().id_of() == old(self).index_map().id_of()
                }
                &&& !old(self).index_map().index_of().contains_key(update.tree_id.0) ==> {
                    &&& idx == old(self).index_map().next_index()
                    &&& final(self).index_map().index_of() == old(self).index_map().index_of().insert(update.tree_id.0, idx)
                    &&& final(self).index_map().id_of() == old(self).index_map().id_of().insert(idx, update.tree_id.0)
                }
                &&& flat_children(entries_view(update.nodes@), update.nodes@.len()).no_duplicates()
                &&& changes_cover(final(self).nodes_view(), old(self).nodes_view(), final(changes).added@,
                    final(changes).updated@, final(changes).removed@)
                &&& forall|c: (u64, u32)| #[trigger] dropped_child(entries_view(update.nodes@), old(self).nodes_view(), idx,
                    update.nodes@.len() as int, c) && c.1 == idx
                    && !flat_children(entries_view(update.nodes@), update.nodes@.len()).contains(NodeId(c.0))
                    && !listed_before(entries_view(update.nodes@), update.nodes@.len() as int, c.0)
                    ==> !final(self).nodes_view().contains_key(c)
                &&& data_follows(final(self).nodes_view(), old(self).nodes_view(), idx,
                    latest_data(entries_view(update.nodes@), update.nodes@.len()))
                &&& (update.tree_id.0 == 0 && update.tree is Some) ==> {
                    &&& final(self).info_view() == update.tree.unwrap()@
                    &&& final(self).root_view() == FullNodeId { local: update.tree.unwrap().root, tree_index: TreeIndex(idx) }
                }
                &&& !(update.tree_id.0 == 0 && update.tree is Some) ==> {
                    &&& final(self).info_view() == old(self).info_view()
                    &&& final(self).root_view() == old(self).root_view()
                }
                &&& final(self).subtrees_view().contains_key(0) ==> follow_focus(
                    final(self).nodes_view(),
                    final(self).subtrees_view(),
                    final(self).subtrees_view()[0].1,
                    final(self).subtrees_view().dom().len(),
                ) == FocusOutcome::Found(node_key(final(self).focus_view()))
            },
    {
        let tree_id = update.tree_id;
        let known = self.tree_index_map.get_index(tree_id);
        if known.is_none() && self.tree_index_map.next == u32::MAX {
            return Err(TreeError::TooManyTrees);
        }
        let tree_index = self.tree_index_map.get_or_create_index(tree_id);
        if tree_id.0 != 0 {
            let subtree_exists = self.subtrees.contains_key(tree_id.0);
            if update.tree.is_some() && !self.graft_parents.contains_key(tree_id.0) {
                return Err(TreeError::SubtreeWithoutGraft);
            }
            if !subtree_exists && update.tree.is_none() {
                return Err(TreeError::UnknownSubtree);
            }
        }
        let ghost old_nodes = self.nodes@;
        let ghost ev = entries_view(update.nodes@);
        let TreeUpdate { nodes: entries, tree, tree_id: _, focus } = update;
        let mut unreachable = NodeKeySet::new();
        let mut seen = NodeKeySet::new();
        let new_tree_root: Option<FullNodeId> = match tree {
            Some(t) => {
                let new_root = FullNodeId::new(t.root, tree_index);
                if tree_id.0 == 0 {
                    if t.root.0 != self.info.root.0 {
                        unreachable.insert(self.root.as_key());
                    }
                    self.root = new_root;
                    self.info = t;
                } else {
                    match self.subtrees.get(tree_id.0) {
                        Some(s) => {
                            if !(s.root == new_root) {
                                unreachable.insert(s.root.as_key());
                            }
                        },
                        None => {},
                    }
                }
                Some(new_root)
            },
            None => None,
        };
        let root_local = match new_tree_root {
            Some(nr) => nr.local,
            None => match self.subtrees.get(tree_id.0) {
                Some(s) => s.root.local,
                None => self.info.root,
            },
        };
        let ghost fresh = sound_first_update(*old(self), update);
        assert(fresh ==> unreachable@ == Set::<(u64, u32)>::empty());
        assert(fresh ==> self.nodes@ == old(self).nodes_view() && tree_index.0 == old(self).index_map().index_of()[0]);
        let mut pending_grafts = GraftTable::new();
        let mut grafts_to_remove = TreeIdSet::new();
        apply_nodes(
            &mut self.nodes, &mut unreachable, &mut seen, &mut pending_grafts, &mut grafts_to_remove,
            changes, &entries, tree_index, root_local,
        )?;
        let ghost lat = latest_data(ev, entries@.len());
        let ghost n1 = self.nodes@;
        let ghost unr = unreachable@;
        let tree_focus = FullNodeId::new(focus, tree_index);
        match new_tree_root {
            Some(nr) => {
                self.subtrees.insert(tree_id.0, SubtreeState { root: nr, focus: tree_focus });
            },
            None => match self.subtrees.get(tree_id.0) {
                Some(s) => {
                    self.subtrees.insert(tree_id.0, SubtreeState { root: s.root, focus: tree_focus });
                },
                None => {
                    if tree_id.0 == 0 {
                        self.subtrees.insert(0, SubtreeState { root: self.root, focus: tree_focus });
                    }
                },
            },
        }
        self.is_host_focused = is_host_focused;
        let unreachable_ids = unreachable.to_vec();
        proof {
            if fresh {
                assert(unreachable@ == Set::<(u64, u32)>::empty());
                if unreachable_ids@.len() > 0 {
                    assert(unreachable_ids@.contains(unreachable_ids@[0]));
                }
            }
        }
        remove_all_unreachable(&mut self.nodes, &mut grafts_to_remove, changes, &seen, new_tree_root, &unreachable_ids, Ghost(old_nodes));
        let ghost n2 = self.nodes@;
        proof { lemma_data_follows_sub(n2, n1, old_nodes, tree_index.0, lat); }
        assert forall|c: (u64, u32)| #[trigger] dropped_child(ev, old_nodes, tree_index.0, entries@.len() as int, c)
            && c.1 == tree_index.0 && !flat_children(ev, entries@.len()).contains(NodeId(c.0))
            && !listed_before(ev, entries@.len() as int, c.0) implies !n2.contains_key(c) by {
            assert(!seen@.contains(c));
            assert(unr.contains(c));
            assert(unreachable_ids@.contains(c));
        }
        remove_grafted_subtrees(
            &mut self.nodes, &mut self.subtrees, &mut self.graft_parents, &pending_grafts, changes,
            grafts_to_remove, Ghost(old_nodes),
        );
        let ghost n3 = self.nodes@;
        proof { lemma_data_follows_sub(n3, n2, old_nodes, tree_index.0, lat); }
        let ghost a3 = changes.added@;
        let ghost u3 = changes.updated@;
        apply_grafts(&mut self.nodes, &self.subtrees, &mut self.graft_parents, &pending_grafts, changes)?;
        let ghost n4 = self.nodes@;
        proof {
            lemma_data_follows_same(n4, n3, old_nodes, tree_index.0, lat);
            lemma_cover_same(n4, n3, old_nodes, a3, u3, changes.removed@, changes.added@, changes.updated@);
        }
        let ghost a4 = changes.added@;
        let ghost u4 = changes.updated@;
        match new_tree_root {
            Some(nr) => {
                attach_new_root(&mut self.nodes, &self.graft_parents, changes, tree_id, nr);
            },
            None => {},
        }
        let ghost n5 = self.nodes@;
        proof {
            lemma_data_follows_same(n5, n4, old_nodes, tree_index.0, lat);
            lemma_cover_same(n5, n4, old_nodes, a4, u4, changes.removed@, changes.added@, changes.updated@);
        }
        proof {
            if fresh {
                let fk = node_key(tree_focus);
                let rk = node_key(self.root);
                assert(n5.contains_key(fk) && n5.contains_key(rk));
                lemma_latest_from(ev, entries@.len() as nat, focus.0);
                let jj = choose|jj: int| 0 <= jj < entries@.len() && (#[trigger] ev[jj]).1 == lat[focus.0];
                assert(!(ev[jj].1.tree_id() is Some));
                assert(n5[fk].data == lat[focus.0]);
                let sv = self.subtrees_view();
                assert(sv.contains_key(0) && sv[0].1 == fk);
                assert(follow_focus(n5, sv, fk, sv.dom().len()) == FocusOutcome::Found(fk));
                crate::ids::lemma_key_roundtrip(tree_focus);
                assert(sv.dom() =~= set![0u128]);
            }
        }
        self.focus = self.compute_effective_focus()?;
        if !self.nodes.contains_key(self.root.as_key()) {
            return Err(TreeError::RootNotInTree);
        }
        if !self.nodes.contains_key(self.focus.as_key()) {
            return Err(TreeError::FocusNotInTree);
        }
        proof {
            let n = entries@.len();
            assert forall|j: int, m: int| 0 <= j < n && last_listing(ev, j, n as int) && 0 <= m < ev[j].1.children().len()
                && ev[j].1.children()[m].0 != root_local.0 implies {
                    let ck = (#[trigger] ev[j].1.children()[m].0, tree_index.0);
                    n5.contains_key(ck) ==> (n5[ck].parent == Some(((ev[j].0.0, tree_index.0), m as usize))
                        || exists|t: u128| #[trigger] self.subtrees_view().contains_key(t) && self.subtrees_view()[t].0 == ck)
                } by {
                let ck = (ev[j].1.children()[m].0, tree_index.0);
                if n5.contains_key(ck) {
                    assert(n4.contains_key(ck));
                    assert(n3.contains_key(ck));
                    assert(n2.contains_key(ck));
                    assert(n1.contains_key(ck));
                    if new_tree_root is Some {
                        assert(ck != node_key(new_tree_root.unwrap()));
                    }
                    assert(n5[ck].parent == n4[ck].parent);
                }
            }
        }
        Ok(())
    }
}

/// A stored node of a tree state, seen together with the state it is in.
#[derive(Clone, Copy)]
pub struct NodeRef<'a> {
    pub(crate) tree_state: &'a TreeState,
    pub(crate) id: FullNodeId,
    pub(crate) state: &'a NodeState,
}

impl<'a> NodeRef<'a> {
    /// The tree state the node is in.
    pub closed spec fn tree(&self) -> TreeState {
        *self.tree_state
    }

    /// The node's identifier.
    pub closed spec fn id_view(&self) -> FullNodeId {
        self.id
    }

    /// The node's stored state.
    pub closed spec fn state_view(&self) -> NodeStateView {
        self.state@
    }

    /// The node is stored in its tree state under its identifier.
    pub open spec fn wf(&self) -> bool {
        &&& self.tree().nodes_view().contains_key(node_key(self.id_view()))
        &&& self.tree().nodes_view()[node_key(self.id_view())] == self.state_view()
    }

    /// The node's identifier.
    pub fn id(&self) -> (r: FullNodeId)
        ensures
            r == self.id_view(),
    {
        self.id
    }

    /// The tree state the node is in.
    pub fn tree_state(&self) -> (r: &'a TreeState)
        ensures
            *r == self.tree(),
    {
        self.tree_state
    }

    /// The node's data.
    pub fn data(&self) -> (r: &'a Node)
        ensures
            r@ == self.state_view().data,
    {
        &self.state.data
    }

    /// The node's parent and its position among the parent's children.
    pub fn parent_link(&self) -> (r: Option<ParentAndIndex>)
        ensures
            crate::ids::parent_view(r) == self.state_view().parent,
    {
        self.state.parent_and_index
    }
}

impl TreeState {
    /// Whether a node with this identifier is stored.
    pub fn has_node(&self, id: FullNodeId) -> (r: bool)
        ensures
            r == self.nodes_view().contains_key(node_key(id)),
    {
        self.nodes.contains_key(id.as_key())
    }

    /// The stored node with this identifier, if any.
    pub fn node_by_id<'a>(&'a self, id: FullNodeId) -> (r: Option<NodeRef<'a>>)
        ensures
            r is Some <==> self.nodes_view().contains_key(node_key(id)),
            r is Some ==> {
                &&& r.unwrap().id_view() == id
                &&& r.unwrap().tree() == *self
                &&& r.unwrap().wf()
            },
    {
        match self.nodes.get(id.as_key()) {
            Some(state) => Some(NodeRef { tree_state: self, id, state }),
            None => None,
        }
    }

    /// The node with local identifier `local_node_id` in the tree with
    /// identifier `tree_id`, if that tree has an index and the node is stored.
    pub fn node_by_tree_local_id<'a>(&'a self, local_node_id: NodeId, tree_id: TreeId) -> (r: Option<NodeRef<'a>>)
        ensures
            r is Some <==> (self.index_map().index_of().contains_key(tree_id.0)
                && self.nodes_view().contains_key((local_node_id.0, self.index_map().index_of()[tree_id.0]))),
            r is Some ==> {
                &&& r.unwrap().id_view() == FullNodeId {
                    local: local_node_id,
                    tree_index: TreeIndex(self.index_map().index_of()[tree_id.0]),
                }
                &&& r.unwrap().tree() == *self
                &&& r.unwrap().wf()
            },
    {
        let tree_index = match self.tree_index_map.get_index(tree_id) {
            Some(i) => i,
            None => {
                return None;
            },
        };
        self.node_by_id(FullNodeId::new(local_node_id, tree_index))
    }

    /// The identifier of the root node.
    pub fn root_id(&self) -> (r: FullNodeId)
        ensures
            r == self.root_view(),
    {
        self.root
    }

    /// The root node.
    pub fn root<'a>(&'a self) -> (r: NodeRef<'a>)
        requires
            self.wf(),
        ensures
            r.id_view() == self.root_view(),
            r.tree() == *self,
            r.wf(),
    {
        self.node_by_id(self.root).unwrap()
    }

    /// The root of the tree with identifier `tree_id`, if that tree exists.
    pub fn subtree_root(&self, tree_id: TreeId) -> (r: Option<FullNodeId>)
        ensures
            r is Some <==> self.subtrees_view().contains_key(tree_id.0),
            r is Some ==> node_key(r.unwrap()) == self.subtrees_view()[tree_id.0].0,
    {
        match self.subtrees.get(tree_id.0) {
            Some(s) => Some(s.root),
            None => None,
        }
    }

    /// The node that has the focus within the tree with identifier
    /// `tree_id`, if that tree exists.
    pub fn subtree_focus(&self, tree_id: TreeId) -> (r: Option<FullNodeId>)
        ensures
            r is Some <==> self.subtrees_view().contains_key(tree_id.0),
            r is Some ==> node_key(r.unwrap()) == self.subtrees_view()[tree_id.0].1,
    {
        match self.subtrees.get(tree_id.0) {
            Some(s) => Some(s.focus),
            None => None,
        }
    }

    /// Whether the host window has the focus.
    pub fn is_host_focused(&self) -> (r: bool)
        ensures
            r == self.host_focused(),
    {
        self.is_host_focused
    }

    /// The node that has the focus within the tree, whether or not the host
    /// window has the focus.
    pub fn focus_id_in_tree(&self) -> (r: FullNodeId)
        ensures
            r == self.focus_view(),
    {
        self.focus
    }

    /// The node that has the focus within the tree.
    pub fn focus_in_tree<'a>(&'a self) -> (r: NodeRef<'a>)
        requires
            self.wf(),
        ensures
            r.id_view() == self.focus_view(),
            r.tree() == *self,
            r.wf(),
    {
        self.node_by_id(self.focus).unwrap()
    }

    /// The focused node, if the host window has the focus.
    pub fn focus_id(&self) -> (r: Option<FullNodeId>)
        ensures
            r == (if self.host_focused() { Some(self.focus_view()) } else { None::<FullNodeId> }),
    {
        if self.is_host_focused {
            Some(self.focus)
        } else {
            None
        }
    }

    /// The name of the UI toolkit, `"AccessKit"` if the tree does not say.
    pub fn toolkit_name(&self) -> (r: &str)
        ensures
            self.info_view().toolkit_name is Some ==> r@ == self.info_view().toolkit_name.unwrap(),
            self.info_view().toolkit_name is None ==> r@ == "AccessKit"@,
    {
        match &self.info.toolkit_name {
            Some(s) => s.as_str(),
            None => "AccessKit",
        }
    }

    /// The version of the UI toolkit, given only together with its name.
    pub fn toolkit_version(&self) -> (r: Option<&str>)
        ensures
            r is Some <==> (self.info_view().toolkit_name is Some && self.info_view().toolkit_version is Some),
            r is Some ==> r.unwrap()@ == self.info_view().toolkit_version.unwrap(),
    {
        match &self.info.toolkit_version {
            Some(v) => {
                if self.info.toolkit_name.is_some() {
                    Some(v.as_str())
                } else {
                    None
                }
            },
            None => None,
        }
    }

    /// The local identifier and tree identifier of a stored node.
    pub fn locate_node(&self, node_id: FullNodeId) -> (r: Option<(NodeId, TreeId)>)
        ensures
            r is Some <==> (self.nodes_view().contains_key(node_key(node_id))
                && self.index_map().id_of().contains_key(node_id.tree_index.0)),
            r is Some ==> r.unwrap() == (node_id.local, TreeId(self.index_map().id_of()[node_id.tree_index.0])),
    {
        if !self.has_node(node_id) {
            return None;
        }
        let (local_id, tree_index) = node_id.to_components();
        match self.tree_index_map.get_id(tree_index) {
            Some(tree_id) => Some((local_id, tree_id)),
            None => None,
        }
    }
}

/// A copy of a node table.
fn copy_nodes(nodes: &NodeTable) -> (r: NodeTable)
    ensures
        r@ == nodes@,
{
    let keys = nodes.keys();
    let mut out = NodeTable::new();
    let mut i: usize = 0;
    while i < keys.len()
        invariant
            i <= keys@.len(),
            forall|k: (u64, u32)| #[trigger] keys@.contains(k) <==> nodes@.contains_key(k),
            forall|k: (u64, u32)| #[trigger] out@.contains_key(k) ==> nodes@.contains_key(k) && out@[k] == nodes@[k],
            forall|j: int| 0 <= j < i ==> #[trigger] out@.contains_key(keys@[j]),
        decreases keys@.len() - i,
    {
        let k = keys[i];
        assert(keys@.contains(k));
        let got = nodes.get(k);
        let st = got.unwrap();
        assert(st@ == nodes@[k]);
        let copy = st.duplicate();
        let ghost o0 = out@;
        out.insert(k, copy);
        assert(out@ == o0.insert(k, copy@));
        assert forall|k2: (u64, u32)| #[trigger] out@.contains_key(k2) implies nodes@.contains_key(k2) && out@[k2] == nodes@[k2] by {
            if k2 != k {
                assert(o0.contains_key(k2));
            }
        }
        assert forall|j: int| 0 <= j < i + 1 implies #[trigger] out@.contains_key(keys@[j]) by {
            if j < i {
                assert(o0.contains_key(keys@[j]));
            }
        }
        i = i + 1;
    }
    assert forall|k: (u64, u32)| nodes@.contains_key(k) implies #[trigger] out@.contains_key(k) by {
        assert(keys@.contains(k));
        let j = choose|j: int| 0 <= j < keys@.len() && keys@[j] == k;
        assert(out@.contains_key(keys@[j]));
    }
    assert(out@ =~= nodes@);
    out
}

impl TreeState {
    /// A copy of the state.
    pub fn duplicate(&self) -> (r: TreeState)
        ensures
            r.nodes_view() == self.nodes_view(),
            r.info_view() == self.info_view(),
            r.root_view() == self.root_view(),
            r.focus_view() == self.focus_view(),
            r.host_focused() == self.host_focused(),
            r.subtrees_view() == self.subtrees_view(),
            r.grafts_view() == self.grafts_view(),
            r.index_map().index_of() == self.index_map().index_of(),
            r.index_map().id_of() == self.index_map().id_of(),
            r.index_map().next_index() == self.index_map().next_index(),
    {
        TreeState {
            nodes: copy_nodes(&self.nodes),
            info: self.info.duplicate(),
            root: self.root,
            focus: self.focus,
            is_host_focused: self.is_host_focused,
            subtrees: self.subtrees.duplicate(),
            graft_parents: self.graft_parents.duplicate(),
            tree_index_map: self.tree_index_map.duplicate(),
        }
    }
}

/// The nodes of a state after the recorded changes are carried over from
/// the next state: removed nodes go, added and updated nodes take their
/// next value, the others stay as they were.
pub open spec fn after_changes(
    old: Map<(u64, u32), NodeStateView>,
    next: Map<(u64, u32), NodeStateView>,
    added: Set<(u64, u32)>,
    updated: Set<(u64, u32)>,
    removed: Set<(u64, u32)>,
) -> Map<(u64, u32), NodeStateView> {
    Map::new(
        |k: (u64, u32)| !removed.contains(k) && (added.contains(k) || updated.contains(k) || old.contains_key(k)),
        |k: (u64, u32)| if added.contains(k) || updated.contains(k) { next[k] } else { old[k] },
    )
}

/// Receives the changes that an update makes to a tree, node by node.
pub trait ChangeHandler {
    /// A node was added.
    fn node_added(&mut self, node: &NodeRef);

    /// A node changed: its old and its new version.
    fn node_updated(&mut self, old_node: &NodeRef, new_node: &NodeRef);

    /// The focus moved from one node (or none) to another (or none).
    fn focus_moved(&mut self, old_node: Option<&NodeRef>, new_node: Option<&NodeRef>);

    /// A node was removed.
    fn node_removed(&mut self, node: &NodeRef);
}

/// The node that the focus lands on when `focus` is focused: its active
/// descendant, if it names a stored node of the same tree, else `focus`.
pub open spec fn focus_target(nodes: Map<(u64, u32), NodeStateView>, focus: FullNodeId) -> FullNodeId {
    let ad = node_id_value(nodes[node_key(focus)].data.prop(PROP_ACTIVE_DESCENDANT));
    if ad is Some && nodes.contains_key((ad.unwrap().0, focus.tree_index.0)) {
        FullNodeId { local: ad.unwrap(), tree_index: focus.tree_index }
    } else {
        focus
    }
}

impl<'a> NodeRef<'a> {
    /// The node's active descendant, if it names a stored node.
    pub fn active_descendant(&self) -> (r: Option<NodeRef<'a>>)
        ensures
            r is Some <==> (node_id_value(self.state_view().data.prop(PROP_ACTIVE_DESCENDANT)) is Some
                && self.tree().nodes_view().contains_key(
                    (node_id_value(self.state_view().data.prop(PROP_ACTIVE_DESCENDANT)).unwrap().0, self.id_view().tree_index.0))),
            r is Some ==> {
                &&& r.unwrap().id_view() == FullNodeId {
                    local: node_id_value(self.state_view().data.prop(PROP_ACTIVE_DESCENDANT)).unwrap(),
                    tree_index: self.id_view().tree_index,
                }
                &&& r.unwrap().tree() == self.tree()
                &&& r.unwrap().wf()
            },
    {
        match self.state.data.active_descendant() {
            Some(id) => self.tree_state.node_by_id(self.id.with_same_tree(id)),
            None => None,
        }
    }

    /// Whether the node is a dialog.
    pub fn is_dialog(&self) -> (r: bool)
        ensures
            r == (self.state_view().data.role == Role::Dialog || self.state_view().data.role == Role::AlertDialog),
    {
        let role = self.state.data.role();
        match role {
            Role::Dialog | Role::AlertDialog => true,
            _ => false,
        }
    }

    /// The node's parent, if it has one that is stored.
    pub fn parent(&self) -> (r: Option<NodeRef<'a>>)
        ensures
            r is Some <==> (self.state_view().parent is Some
                && self.tree().nodes_view().contains_key(self.state_view().parent.unwrap().0)),
            r is Some ==> {
                &&& node_key(r.unwrap().id_view()) == self.state_view().parent.unwrap().0
                &&& r.unwrap().tree() == self.tree()
                &&& r.unwrap().wf()
            },
    {
        match self.state.parent_and_index {
            Some(p) => self.tree_state.node_by_id(p.0),
            None => None,
        }
    }
}

/// The key of the nearest dialog at or above stored node `k`, following
/// at most `fuel` parent links up.
pub open spec fn nearest_dialog(nodes: Map<(u64, u32), NodeStateView>, k: (u64, u32), fuel: nat) -> Option<(u64, u32)>
    decreases fuel,
{
    if !nodes.contains_key(k) {
        None
    } else if nodes[k].data.role == Role::Dialog || nodes[k].data.role == Role::AlertDialog {
        Some(k)
    } else if fuel == 0 {
        None
    } else {
        let p = nodes[k].parent;
        if p is Some && nodes.contains_key(p.unwrap().0) {
            nearest_dialog(nodes, p.unwrap().0, (fuel - 1) as nat)
        } else {
            None
        }
    }
}

impl TreeState {
    /// The focused node, if the host window has the focus: the focus, or
    /// its active descendant when that is a stored node.
    pub fn focus<'a>(&'a self) -> (r: Option<NodeRef<'a>>)
        requires
            self.wf(),
        ensures
            !self.host_focused() ==> r is None,
            self.host_focused() ==> {
                &&& r is Some
                &&& r.unwrap().id_view() == focus_target(self.nodes_view(), self.focus_view())
                &&& r.unwrap().tree() == *self
                &&& r.unwrap().wf()
            },
    {
        match self.focus_id() {
            Some(id) => {
                let focused = self.node_by_id(id).unwrap();
                match focused.active_descendant() {
                    Some(n) => Some(n),
                    None => Some(focused),
                }
            },
            None => None,
        }
    }

    /// The nearest dialog at or above the focused node, if the host window
    /// has the focus. The walk up goes through at most as many nodes as
    /// the tree holds.
    pub fn active_dialog<'a>(&'a self) -> (r: Option<NodeRef<'a>>)
        requires
            self.wf(),
        ensures
            !self.host_focused() ==> r is None,
            self.host_focused() ==> {
                let found = nearest_dialog(self.nodes_view(), node_key(focus_target(self.nodes_view(), self.focus_view())),
                    self.nodes_view().dom().len());
                &&& r is Some <==> found is Some
                &&& r is Some ==> node_key(r.unwrap().id_view()) == found.unwrap()
            },
            r is Some ==> {
                &&& r.unwrap().tree() == *self
                &&& r.unwrap().wf()
                &&& (r.unwrap().state_view().data.role == Role::Dialog
                    || r.unwrap().state_view().data.role == Role::AlertDialog)
            },
    {
        let mut node = self.focus();
        let mut fuel: usize = self.nodes.len();
        let ghost goal = nearest_dialog(self.nodes_view(), node_key(focus_target(self.nodes_view(), self.focus_view())),
            self.nodes_view().dom().len());
        loop
            invariant
                node is Some ==> node.unwrap().tree() == *self && node.unwrap().wf(),
                !self.host_focused() ==> node is None,
                self.host_focused() ==> {
                    &&& goal == nearest_dialog(self.nodes_view(), node_key(focus_target(self.nodes_view(), self.focus_view())),
                        self.nodes_view().dom().len())
                    &&& node is Some ==> goal == nearest_dialog(self.nodes_view(), node_key(node.unwrap().id_view()), fuel as nat)
                    &&& node is None ==> goal is None
                },
            decreases fuel,
        {
            let candidate = match node {
                Some(c) => c,
                None => {
                    return None;
                },
            };
            if candidate.is_dialog() {
                return Some(candidate);
            }
            if fuel == 0 {
                return None;
            }
            fuel = fuel - 1;
            node = candidate.parent();
        }
    }
}

/// Carries the recorded changes over from the next nodes to the current
/// ones: added and updated nodes are copied, removed nodes are dropped.
fn sync_nodes(
    cur: &mut NodeTable,
    next: &NodeTable,
    added: &Vec<(u64, u32)>,
    updated: &Vec<(u64, u32)>,
    removed: &Vec<(u64, u32)>,
    Ghost(a): Ghost<Set<(u64, u32)>>,
    Ghost(u): Ghost<Set<(u64, u32)>>,
    Ghost(d): Ghost<Set<(u64, u32)>>,
)
    requires
        forall|k: (u64, u32)| #[trigger] added@.contains(k) <==> a.contains(k),
        forall|k: (u64, u32)| #[trigger] updated@.contains(k) <==> u.contains(k),
        forall|k: (u64, u32)| #[trigger] removed@.contains(k) <==> d.contains(k),
        forall|k: (u64, u32)| #[trigger] a.contains(k) ==> next@.contains_key(k),
        forall|k: (u64, u32)| #[trigger] u.contains(k) ==> next@.contains_key(k) && old(cur)@.contains_key(k),
    ensures
        final(cur)@ == after_changes(old(cur)@, next@, a, u, d),
{
    let ghost c0 = cur@;
    let mut i: usize = 0;
    while i < added.len()
        invariant
            i <= added@.len(),
            c0 == old(cur)@,
            forall|k: (u64, u32)| #[trigger] cur@.contains_key(k) <==> (c0.contains_key(k) || added@.subrange(0, i as int).contains(k)),
            forall|k: (u64, u32)| #[trigger] cur@.contains_key(k) ==>
                cur@[k] == (if added@.subrange(0, i as int).contains(k) { next@[k] } else { c0[k] }),
            forall|k: (u64, u32)| #[trigger] added@.contains(k) <==> a.contains(k),
            forall|k: (u64, u32)| #[trigger] a.contains(k) ==> next@.contains_key(k),
        decreases added@.len() - i,
    {
        let k = added[i];
        assert(added@.contains(k));
        let st = next.get(k).unwrap();
        let ghost cb = cur@;
        cur.insert(k, st.duplicate());
        let ghost pre = added@.subrange(0, i as int);
        assert(added@.subrange(0, i + 1) =~= pre.push(k));
        assert forall|x: (u64, u32)| #[trigger] cur@.contains_key(x) <==> (c0.contains_key(x) || pre.push(k).contains(x)) by {
            if pre.push(k).contains(x) && x != k {
                let w = choose|w: int| 0 <= w < pre.push(k).len() && pre.push(k)[w] == x;
                assert(pre[w] == x);
            }
            if pre.contains(x) {
                let w = choose|w: int| 0 <= w < pre.len() && pre[w] == x;
                assert(pre.push(k)[w] == x);
            }
            assert(pre.push(k)[pre.len() as int] == k);
        }
        assert forall|x: (u64, u32)| #[trigger] cur@.contains_key(x) implies
            cur@[x] == (if pre.push(k).contains(x) { next@[x] } else { c0[x] }) by {
            assert(pre.push(k)[pre.len() as int] == k);
            if x != k {
                if pre.push(k).contains(x) {
                    let w = choose|w: int| 0 <= w < pre.push(k).len() && pre.push(k)[w] == x;
                    assert(pre[w] == x);
                }
                if pre.contains(x) {
                    let w = choose|w: int| 0 <= w < pre.len() && pre[w] == x;
                    assert(pre.push(k)[w] == x);
                }
                assert(cb.contains_key(x));
            }
        }
        i = i + 1;
    }
    assert(added@.subrange(0, added@.len() as int) =~= added@);
    let ghost c1 = cur@;
    let mut j: usize = 0;
    while j < updated.len()
        invariant
            j <= updated@.len(),
            c0 == old(cur)@,
            forall|k: (u64, u32)| #[trigger] cur@.contains_key(k) <==> (c0.contains_key(k) || added@.contains(k)),
            forall|k: (u64, u32)| #[trigger] cur@.contains_key(k) ==>
                cur@[k] == (if added@.contains(k) || updated@.subrange(0, j as int).contains(k) { next@[k] } else { c0[k] }),
            forall|k: (u64, u32)| #[trigger] updated@.contains(k) <==> u.contains(k),
            forall|k: (u64, u32)| #[trigger] u.contains(k) ==> next@.contains_key(k) && c0.contains_key(k),
        decreases updated@.len() - j,
    {
        let k = updated[j];
        assert(updated@.contains(k));
        let st = next.get(k).unwrap();
        let ghost cb = cur@;
        cur.insert(k, st.duplicate());
        let ghost pre = updated@.subrange(0, j as int);
        assert(updated@.subrange(0, j + 1) =~= pre.push(k));
        assert(pre.push(k)[pre.len() as int] == k);
        assert(cur@.dom() =~= cb.dom());
        assert forall|x: (u64, u32)| #[trigger] cur@.contains_key(x) implies
            cur@[x] == (if added@.contains(x) || pre.push(k).contains(x) { next@[x] } else { c0[x] }) by {
            if x != k {
                if pre.push(k).contains(x) {
                    let w = choose|w: int| 0 <= w < pre.push(k).len() && pre.push(k)[w] == x;
                    assert(pre[w] == x);
                }
                if pre.contains(x) {
                    let w = choose|w: int| 0 <= w < pre.len() && pre[w] == x;
                    assert(pre.push(k)[w] == x);
                }
                assert(cb.contains_key(x));
            }
        }
        j = j + 1;
    }
    assert(updated@.subrange(0, updated@.len() as int) =~= updated@);
    let ghost c2 = cur@;
    let mut e: usize = 0;
    while e < removed.len()
        invariant
            e <= removed@.len(),
            forall|k: (u64, u32)| #[trigger] cur@.contains_key(k) <==> (c2.contains_key(k) && !removed@.subrange(0, e as int).contains(k)),
            forall|k: (u64, u32)| #[trigger] cur@.contains_key(k) ==> cur@[k] == c2[k],
        decreases removed@.len() - e,
    {
        let k = removed[e];
        let ghost cb = cur@;
        cur.remove(k);
        let ghost pre = removed@.subrange(0, e as int);
        assert(removed@.subrange(0, e + 1) =~= pre.push(k));
        assert(pre.push(k)[pre.len() as int] == k);
        assert forall|x: (u64, u32)| #[trigger] cur@.contains_key(x) <==> (c2.contains_key(x) && !pre.push(k).contains(x)) by {
            if pre.push(k).contains(x) && x != k {
                let w = choose|w: int| 0 <= w < pre.push(k).len() && pre.push(k)[w] == x;
                assert(pre[w] == x);
            }
            if pre.contains(x) {
                let w = choose|w: int| 0 <= w < pre.len() && pre[w] == x;
                assert(pre.push(k)[w] == x);
            }
        }
        e = e + 1;
    }
    assert(removed@.subrange(0, removed@.len() as int) =~= removed@);
    assert(cur@ =~= after_changes(c0, next@, a, u, d));
}

/// After the recorded changes are carried over, the current nodes are the
/// next nodes, each with the same data, provided that the current nodes
/// had the data of the nodes before the update and that the changes
/// account for the update.
pub proof fn lemma_synced(
    cur: Map<(u64, u32), NodeStateView>,
    base: Map<(u64, u32), NodeStateView>,
    next: Map<(u64, u32), NodeStateView>,
    a: Set<(u64, u32)>,
    u: Set<(u64, u32)>,
    d: Set<(u64, u32)>,
)
    requires
        same_data(cur, base),
        changes_cover(next, base, a, u, d),
        forall|k: (u64, u32)| #[trigger] a.contains(k) ==> next.contains_key(k),
        forall|k: (u64, u32)| #[trigger] u.contains(k) ==> next.contains_key(k),
    ensures
        same_data(after_changes(cur, next, a, u, d), next),
{
    let m = after_changes(cur, next, a, u, d);
    assert forall|k: (u64, u32)| #[trigger] m.contains_key(k) <==> next.contains_key(k) by {
        if next.contains_key(k) {
            assert(!d.contains(k));
            if !base.contains_key(k) {
                assert(a.contains(k));
            } else {
                assert(cur.contains_key(k));
            }
        }
        if m.contains_key(k) && !a.contains(k) && !u.contains(k) {
            assert(cur.contains_key(k));
            assert(base.contains_key(k));
        }
    }
    assert(m.dom() =~= next.dom());
    assert forall|k: (u64, u32)| #[trigger] m.contains_key(k) implies m[k].data == next[k].data by {
        if !a.contains(k) && !u.contains(k) {
            assert(cur.contains_key(k));
            assert(base.contains_key(k));
            assert(cur[k].data == base[k].data);
        }
    }
}

/// Two states agree: the same nodes with the same data, and the same
/// tree data, root, focus, host focus, subtrees, graft nodes and indices.
pub open spec fn states_agree(s: TreeState, t: TreeState) -> bool {
    &&& same_data(s.nodes_view(), t.nodes_view())
    &&& s.info_view() == t.info_view()
    &&& s.root_view() == t.root_view()
    &&& s.focus_view() == t.focus_view()
    &&& s.host_focused() == t.host_focused()
    &&& s.subtrees_view() == t.subtrees_view()
    &&& s.grafts_view() == t.grafts_view()
    &&& s.index_map().index_of() == t.index_map().index_of()
    &&& s.index_map().id_of() == t.index_map().id_of()
    &&& s.index_map().next_index() == t.index_map().next_index()
}

/// What the data of the nodes follows is the same for two tables that
/// hold the same nodes with the same data.
proof fn lemma_data_follows_base(
    new: Map<(u64, u32), NodeStateView>,
    a: Map<(u64, u32), NodeStateView>,
    b: Map<(u64, u32), NodeStateView>,
    index: u32,
    latest: Map<u64, NodeView>,
)
    requires
        data_follows(new, a, index, latest),
        same_data(b, a),
    ensures
        data_follows(new, b, index, latest),
{
    assert forall|k: (u64, u32)| #[trigger] new.contains_key(k) implies
        (if k.1 == index && latest.contains_key(k.0) {
            new[k].data == latest[k.0]
        } else {
            b.contains_key(k) && new[k].data == b[k].data
        }) by {
        if !(k.1 == index && latest.contains_key(k.0)) {
            assert(a.contains_key(k));
            assert(b.dom().contains(k));
        }
    }
}

/// Whether two optional node identifiers are the same.
fn same_opt_id(a: Option<FullNodeId>, b: Option<FullNodeId>) -> (r: bool)
    ensures
        r == (a == b),
{
    match (a, b) {
        (Some(x), Some(y)) => x == y,
        (None, None) => true,
        _ => false,
    }
}

/// A consumer-side tree: the state that was last reported to a change
/// handler, and the state that the next update is applied to.
/// Every recorded change names a node where the change says it is: added
/// and updated nodes in the state `new`, updated and removed nodes in the
/// state `old`.
pub open spec fn changes_present(
    old: Map<(u64, u32), NodeStateView>,
    new: Map<(u64, u32), NodeStateView>,
    added: Set<(u64, u32)>,
    updated: Set<(u64, u32)>,
    removed: Set<(u64, u32)>,
) -> bool {
    &&& forall|k: (u64, u32)| #[trigger] added.contains(k) ==> new.contains_key(k)
    &&& forall|k: (u64, u32)| #[trigger] updated.contains(k) ==> new.contains_key(k) && old.contains_key(k)
    &&& forall|k: (u64, u32)| #[trigger] removed.contains(k) ==> old.contains_key(k)
}

/// One call that a change handler receives, by the identifiers of the
/// nodes it is given (for an update, the node's identifier).
#[derive(Clone, Copy, Debug, PartialEq, Eq, Structural)]
pub enum ChangeEvent {
    Added(FullNodeId),
    Updated(FullNodeId),
    FocusMoved(Option<FullNodeId>, Option<FullNodeId>),
    Removed(FullNodeId),
}

/// The node that has the focus in state `s`, if the host window has it.
pub open spec fn focused_id(s: TreeState) -> Option<FullNodeId> {
    if s.host_focused() {
        Some(focus_target(s.nodes_view(), s.focus_view()))
    } else {
        None
    }
}

/// The calls for a focus that moves from state `cur` to state `next`:
/// none if the focused node stays; else an update for the node that loses
/// the focus (unless it was updated or removed anyway, or is missing from
/// `next`), one for the node that gains it (unless it was added or updated
/// anyway, or is missing from `cur`), and then the move itself.
pub open spec fn focus_events(
    cur: TreeState,
    next: TreeState,
    added: Set<(u64, u32)>,
    updated: Set<(u64, u32)>,
    removed: Set<(u64, u32)>,
) -> Seq<ChangeEvent> {
    let of = focused_id(cur);
    let nf = focused_id(next);
    if of == nf {
        Seq::empty()
    } else {
        let lose = match of {
            Some(o) => if !updated.contains(node_key(o)) && !removed.contains(node_key(o))
                && next.nodes_view().contains_key(node_key(o)) {
                seq![ChangeEvent::Updated(o)]
            } else {
                Seq::empty()
            },
            None => Seq::empty(),
        };
        let gain = match nf {
            Some(n) => if !added.contains(node_key(n)) && !updated.contains(node_key(n))
                && cur.nodes_view().contains_key(node_key(n)) {
                seq![ChangeEvent::Updated(n)]
            } else {
                Seq::empty()
            },
            None => Seq::empty(),
        };
        lose + gain + seq![ChangeEvent::FocusMoved(of, nf)]
    }
}

/// One added call for each node of `a`, in order.
pub open spec fn added_events(a: Seq<(u64, u32)>) -> Seq<ChangeEvent> {
    a.map_values(|k: (u64, u32)| ChangeEvent::Added(key_node(k)))
}

/// One update call for each node of `u`, in order.
pub open spec fn updated_events(u: Seq<(u64, u32)>) -> Seq<ChangeEvent> {
    u.map_values(|k: (u64, u32)| ChangeEvent::Updated(key_node(k)))
}

/// One removal call for each node of `rm`, in order.
pub open spec fn removed_events(rm: Seq<(u64, u32)>) -> Seq<ChangeEvent> {
    rm.map_values(|k: (u64, u32)| ChangeEvent::Removed(key_node(k)))
}

/// The calls for the changes from state `cur` to state `next` that list
/// the added nodes `a`, the updated nodes `u` and the removed nodes `rm`:
/// each added node, each updated node, the focus calls, then each removed
/// node.
pub open spec fn change_events(
    cur: TreeState,
    next: TreeState,
    a: Seq<(u64, u32)>,
    u: Seq<(u64, u32)>,
    rm: Seq<(u64, u32)>,
) -> Seq<ChangeEvent> {
    added_events(a) + updated_events(u) + focus_events(cur, next, a.to_set(), u.to_set(), rm.to_set()) + removed_events(rm)
}

/// `events` are the calls for the changes from `cur` to `next` (see
/// [`change_events`]) for some order of the added, updated and removed
/// nodes, each listed once.
pub open spec fn listed_in_some_order(
    events: Seq<ChangeEvent>,
    cur: TreeState,
    next: TreeState,
    added: Set<(u64, u32)>,
    updated: Set<(u64, u32)>,
    removed: Set<(u64, u32)>,
) -> bool {
    exists|a: Seq<(u64, u32)>, u: Seq<(u64, u32)>, rm: Seq<(u64, u32)>|
        #![trigger change_events(cur, next, a, u, rm)]
        a.no_duplicates() && u.no_duplicates() && rm.no_duplicates()
        && a.to_set() == added && u.to_set() == updated && rm.to_set() == removed
        && events == change_events(cur, next, a, u, rm)
}

pub struct Tree {
    state: TreeState,
    next_state: TreeState,
}

impl Tree {
    /// The state that was last reported.
    pub closed spec fn current(&self) -> TreeState {
        self.state
    }

    /// The state that updates are applied to.
    pub closed spec fn pending(&self) -> TreeState {
        self.next_state
    }

    /// Both states are consistent and agree with each other.
    pub open spec fn wf(&self) -> bool {
        &&& self.current().wf()
        &&& self.pending().wf()
        &&& states_agree(self.current(), self.pending())
    }

    /// Builds a tree from its first update, which must bring the root
    /// tree's data and be for the root tree.
    pub fn new(initial_state: TreeUpdate, is_host_focused: bool) -> (r: Result<Tree, TreeError>)
        ensures
            r == Err::<Tree, TreeError>(TreeError::InitWithoutTree) <==> initial_state.tree is None,
            r == Err::<Tree, TreeError>(TreeError::InitWithSubtree) <==> (initial_state.tree is Some
                && initial_state.tree_id.0 != 0),
            r is Err ==> is_update_error(r->Err_0) || r == Err::<Tree, TreeError>(TreeError::InitWithoutTree)
                || r == Err::<Tree, TreeError>(TreeError::InitWithSubtree),
            r != Err::<Tree, TreeError>(TreeError::TooManyTrees),
            r != Err::<Tree, TreeError>(TreeError::SubtreeWithoutGraft),
            r != Err::<Tree, TreeError>(TreeError::UnknownSubtree),
            r == Err::<Tree, TreeError>(TreeError::DuplicateChild) ==>
                !flat_children(entries_view(initial_state.nodes@), initial_state.nodes@.len()).no_duplicates(),
            r == Err::<Tree, TreeError>(TreeError::GraftWithChildren) ==> lists_graft_with_children(entries_view(initial_state.nodes@)),
            r == Err::<Tree, TreeError>(TreeError::GraftOfRootTree) ==> lists_root_graft(entries_view(initial_state.nodes@)),
            r == Err::<Tree, TreeError>(TreeError::UnattachedNodes) ==> lists_unattached(entries_view(initial_state.nodes@),
                Map::empty(), 0, initial_state.tree.unwrap().root.0),
            r == Err::<Tree, TreeError>(TreeError::MissingChildren) ==> lists_missing_child(entries_view(initial_state.nodes@),
                Map::empty(), 0),
            sound_first_tree(initial_state) ==> r is Ok,
            r is Ok && sound_first_tree(initial_state) ==> {
                let t = r->Ok_0;
                let ev = entries_view(initial_state.nodes@);
                &&& forall|x: u64| #[trigger] latest_data(ev, initial_state.nodes@.len()).contains_key(x)
                    ==> t.current().nodes_view().contains_key((x, 0u32))
                &&& forall|j: int, m: int| 0 <= j < initial_state.nodes@.len()
                    && last_listing(ev, j, initial_state.nodes@.len() as int)
                    && 0 <= m < ev[j].1.children().len() && ev[j].1.children()[m].0 != initial_state.tree.unwrap().root.0 ==> {
                        let ck = (#[trigger] ev[j].1.children()[m].0, 0u32);
                        &&& t.current().nodes_view().contains_key(ck)
                        &&& t.current().nodes_view()[ck].parent == Some(((ev[j].0.0, 0u32), m as usize))
                    }
            },
            r is Ok ==> {
                let t = r->Ok_0;
                let info = initial_state.tree.unwrap();
                &&& t.wf()
                &&& t.current().host_focused() == is_host_focused
                &&& t.current().info_view() == info@
                &&& t.current().root_view() == FullNodeId { local: info.root, tree_index: TreeIndex(0) }
                &&& t.current().index_map().index_of() == Map::<u128, u32>::empty().insert(0, 0)
                &&& flat_children(entries_view(initial_state.nodes@), initial_state.nodes@.len()).no_duplicates()
                &&& data_follows(t.current().nodes_view(), Map::empty(), 0,
                    latest_data(entries_view(initial_state.nodes@), initial_state.nodes@.len()))
            },
    {
        let TreeUpdate { nodes, tree, tree_id, focus } = initial_state;
        let tree = match tree {
            Some(t) => t,
            None => {
                return Err(TreeError::InitWithoutTree);
            },
        };
        if tree_id.0 != 0 {
            return Err(TreeError::InitWithSubtree);
        }
        let mut tree_index_map = TreeIndexMap::new();
        let tree_index = tree_index_map.get_or_create_index(tree_id);
        let mut state = TreeState {
            nodes: NodeTable::new(),
            root: FullNodeId::new(tree.root, tree_index),
            info: tree,
            focus: FullNodeId::new(focus, tree_index),
            is_host_focused,
            subtrees: SubtreeTable::new(),
            graft_parents: GraftTable::new(),
            tree_index_map,
        };
        assert(state.nodes_view() =~= Map::empty());
        let mut changes = InternalChanges::new();
        let first = TreeUpdate { nodes, tree: None, tree_id, focus };
        proof {
            if sound_first_tree(initial_state) {
                assert(first.nodes@ == initial_state.nodes@);
                assert(state.index_map().index_of()[0] == 0);
                assert(!state.subtrees_view().contains_key(0));
                assert(update_root_local(state, first) == initial_state.tree.unwrap().root.0);
                assert(sound_first_update(state, first));
            }
        }
        state.update(first, is_host_focused, &mut changes)?;
        proof {
            if sound_first_tree(initial_state) {
                let ev = entries_view(initial_state.nodes@);
                let n = initial_state.nodes@.len();
                assert forall|j: int, m: int| 0 <= j < n && last_listing(ev, j, n as int)
                    && 0 <= m < ev[j].1.children().len() && ev[j].1.children()[m].0 != initial_state.tree.unwrap().root.0
                    implies state.nodes_view().contains_key((#[trigger] ev[j].1.children()[m].0, 0u32)) by {
                    let c = ev[j].1.children()[m];
                    lemma_child_in_flat(ev, j, n, c);
                    assert(listed_before(ev, n as int, c.0)) by {
                        assert(!lists_missing_child(ev, Map::empty(), 0));
                        assert(!Map::<(u64, u32), NodeStateView>::empty().contains_key((c.0, 0u32)));
                    }
                    lemma_listed_latest(ev, n, c.0);
                }
            }
        }
        let next_state = state.duplicate();
        let t = Tree { state, next_state };
        assert(same_data(t.current().nodes_view(), t.pending().nodes_view()));
        Ok(t)
    }

    /// The state that was last reported.
    pub fn state(&self) -> (r: &TreeState)
        ensures
            *r == self.current(),
    {
        &self.state
    }

    /// The calls that a change handler is to receive for the recorded
    /// changes, in order: one for each added node, one for each updated
    /// node, then, if the focused node changed, an update for the node that
    /// loses the focus and one for the node that gains it (each unless that
    /// node was updated, added or removed anyway, or is missing from the
    /// other state) and the focus move itself, and last one for each
    /// removed node. The nodes of each kind come in the order of a walk of
    /// the recorded set. Fails if a change names a node that is not where
    /// the change says it is.
    pub fn notifications(&self, changes: &InternalChanges) -> (r: Result<Vec<ChangeEvent>, TreeError>)
        requires
            self.current().wf(),
            self.pending().wf(),
        ensures
            r is Err ==> r == Err::<Vec<ChangeEvent>, TreeError>(TreeError::StaleChange),
            r is Ok <==> changes_present(self.current().nodes_view(), self.pending().nodes_view(),
                changes.added@, changes.updated@, changes.removed@),
            r is Ok ==> listed_in_some_order(r->Ok_0@, self.current(), self.pending(),
                changes.added@, changes.updated@, changes.removed@),
    {
        let added = changes.added.to_vec();
        let updated = changes.updated.to_vec();
        let removed = changes.removed.to_vec();
        let mut out: Vec<ChangeEvent> = Vec::new();
        let mut i: usize = 0;
        while i < added.len()
            invariant
                i <= added@.len(),
                forall|k: (u64, u32)| #[trigger] added@.contains(k) <==> changes.added@.contains(k),
                forall|w: int| 0 <= w < i ==> #[trigger] self.pending().nodes_view().contains_key(added@[w]),
                out@ == added_events(added@.subrange(0, i as int)),
            decreases added@.len() - i,
        {
            let id = FullNodeId::from_key(added[i]);
            if !self.next_state.has_node(id) {
                assert(added@.contains(added@[i as int]));
                assert(changes.added@.contains(added@[i as int]));
                return Err(TreeError::StaleChange);
            }
            out.push(ChangeEvent::Added(id));
            assert(added@.subrange(0, i + 1) =~= added@.subrange(0, i as int).push(added@[i as int]));
            assert(out@ =~= added_events(added@.subrange(0, i + 1)));
            i = i + 1;
        }
        assert(added@.subrange(0, added@.len() as int) =~= added@);
        let ghost o1 = out@;
        let mut j: usize = 0;
        while j < updated.len()
            invariant
                j <= updated@.len(),
                forall|k: (u64, u32)| #[trigger] updated@.contains(k) <==> changes.updated@.contains(k),
                forall|w: int| 0 <= w < j ==> self.pending().nodes_view().contains_key(#[trigger] updated@[w]),
                forall|w: int| 0 <= w < j ==> self.current().nodes_view().contains_key(#[trigger] updated@[w]),
                out@ == o1 + updated_events(updated@.subrange(0, j as int)),
            decreases updated@.len() - j,
        {
            let id = FullNodeId::from_key(updated[j]);
            if !self.state.has_node(id) || !self.next_state.has_node(id) {
                assert(updated@.contains(updated@[j as int]));
                assert(changes.updated@.contains(updated@[j as int]));
                return Err(TreeError::StaleChange);
            }
            out.push(ChangeEvent::Updated(id));
            assert(updated@.subrange(0, j + 1) =~= updated@.subrange(0, j as int).push(updated@[j as int]));
            assert(out@ =~= o1 + updated_events(updated@.subrange(0, j + 1)));
            j = j + 1;
        }
        assert(updated@.subrange(0, updated@.len() as int) =~= updated@);
        let ghost o2 = out@;
        let old_focus = self.state.focus();
        let new_focus = self.next_state.focus();
        let old_id = match &old_focus {
            Some(n) => Some(n.id()),
            None => None,
        };
        let new_id = match &new_focus {
            Some(n) => Some(n.id()),
            None => None,
        };
        if !same_opt_id(old_id, new_id) {
            match old_id {
                Some(id) => {
                    if !changes.updated.contains(id.as_key()) && !changes.removed.contains(id.as_key())
                        && self.next_state.has_node(id) {
                        out.push(ChangeEvent::Updated(id));
                    }
                },
                None => {},
            }
            match new_id {
                Some(id) => {
                    if !changes.added.contains(id.as_key()) && !changes.updated.contains(id.as_key())
                        && self.state.has_node(id) {
                        out.push(ChangeEvent::Updated(id));
                    }
                },
                None => {},
            }
            out.push(ChangeEvent::FocusMoved(old_id, new_id));
        }
        assert(out@ =~= o2 + focus_events(self.current(), self.pending(), changes.added@, changes.updated@,
            changes.removed@));
        let ghost o3 = out@;
        let mut e: usize = 0;
        while e < removed.len()
            invariant
                e <= removed@.len(),
                forall|k: (u64, u32)| #[trigger] removed@.contains(k) <==> changes.removed@.contains(k),
                forall|w: int| 0 <= w < e ==> #[trigger] self.current().nodes_view().contains_key(removed@[w]),
                out@ == o3 + removed_events(removed@.subrange(0, e as int)),
            decreases removed@.len() - e,
        {
            let id = FullNodeId::from_key(removed[e]);
            if !self.state.has_node(id) {
                assert(removed@.contains(removed@[e as int]));
                assert(changes.removed@.contains(removed@[e as int]));
                return Err(TreeError::StaleChange);
            }
            out.push(ChangeEvent::Removed(id));
            assert(removed@.subrange(0, e + 1) =~= removed@.subrange(0, e as int).push(removed@[e as int]));
            assert(out@ =~= o3 + removed_events(removed@.subrange(0, e + 1)));
            e = e + 1;
        }
        proof {
            assert(removed@.subrange(0, removed@.len() as int) =~= removed@);
            assert forall|k: (u64, u32)| #[trigger] changes.added@.contains(k) implies self.pending().nodes_view().contains_key(k) by {
                assert(added@.contains(k));
            }
            assert forall|k: (u64, u32)| #[trigger] changes.updated@.contains(k) implies
                self.pending().nodes_view().contains_key(k) && self.current().nodes_view().contains_key(k) by {
                assert(updated@.contains(k));
            }
            assert forall|k: (u64, u32)| #[trigger] changes.removed@.contains(k) implies self.current().nodes_view().contains_key(k) by {
                assert(removed@.contains(k));
            }
            assert(added@.to_set() =~= changes.added@);
            assert(updated@.to_set() =~= changes.updated@);
            assert(removed@.to_set() =~= changes.removed@);
            assert(out@ =~= change_events(self.current(), self.pending(), added@, updated@, removed@));
            assert(listed_in_some_order(out@, self.current(), self.pending(), changes.added@, changes.updated@,
                changes.removed@));
        }
        Ok(out)
    }

    /// Hands each call of `events` to the handler, in order, with the
    /// nodes it names: added and new versions from the next state, removed
    /// and old versions from the current one. A call whose node is in
    /// neither state is passed over.
    fn deliver<H: ChangeHandler>(&self, events: &Vec<ChangeEvent>, handler: &mut H) {
        let mut i: usize = 0;
        while i < events.len()
            invariant
                i <= events@.len(),
            decreases events@.len() - i,
        {
            match events[i] {
                ChangeEvent::Added(id) => {
                    match self.next_state.node_by_id(id) {
                        Some(n) => {
                            handler.node_added(&n);
                        },
                        None => {},
                    }
                },
                ChangeEvent::Updated(id) => {
                    match (self.state.node_by_id(id), self.next_state.node_by_id(id)) {
                        (Some(o), Some(n)) => {
                            handler.node_updated(&o, &n);
                        },
                        _ => {},
                    }
                },
                ChangeEvent::FocusMoved(old_id, new_id) => {
                    let o = match old_id {
                        Some(id) => self.state.node_by_id(id),
                        None => None,
                    };
                    let n = match new_id {
                        Some(id) => self.next_state.node_by_id(id),
                        None => None,
                    };
                    let o_ref = match &o {
                        Some(x) => Some(x),
                        None => None,
                    };
                    let n_ref = match &n {
                        Some(x) => Some(x),
                        None => None,
                    };
                    handler.focus_moved(o_ref, n_ref);
                },
                ChangeEvent::Removed(id) => {
                    match self.state.node_by_id(id) {
                        Some(n) => {
                            handler.node_removed(&n);
                        },
                        None => {},
                    }
                },
            }
            i = i + 1;
        }
    }
}

impl Tree {
    /// Tells the handler about the recorded changes and carries them over
    /// to the current state, which then agrees with the next state.
    fn process_changes<H: ChangeHandler>(
        &mut self,
        changes: InternalChanges,
        handler: &mut H,
        Ghost(base): Ghost<Map<(u64, u32), NodeStateView>>,
    ) -> (r: Result<(), TreeError>)
        requires
            old(self).current().wf(),
            old(self).pending().wf(),
            same_data(old(self).current().nodes_view(), base),
            changes_cover(old(self).pending().nodes_view(), base, changes.added@, changes.updated@, changes.removed@),
        ensures
            final(self).pending() == old(self).pending(),
            r is Err ==> r == Err::<(), TreeError>(TreeError::StaleChange),
            r is Ok <==> changes_present(old(self).current().nodes_view(), old(self).pending().nodes_view(),
                changes.added@, changes.updated@, changes.removed@),
            r is Ok ==> final(self).wf(),
    {
        let events = self.notifications(&changes)?;
        self.deliver(&events, handler);
        let added = changes.added.to_vec();
        let updated = changes.updated.to_vec();
        let removed = changes.removed.to_vec();
        let ghost cur0 = self.state.nodes@;
        sync_nodes(
            &mut self.state.nodes, &self.next_state.nodes, &added, &updated, &removed,
            Ghost(changes.added@), Ghost(changes.updated@), Ghost(changes.removed@),
        );
        proof {
            lemma_synced(cur0, base, self.next_state.nodes@, changes.added@, changes.updated@, changes.removed@);
        }
        if !self.state.info.same_as(&self.next_state.info) {
            self.state.info = self.next_state.info.duplicate();
        }
        self.state.root = self.next_state.root;
        self.state.focus = self.next_state.focus;
        self.state.is_host_focused = self.next_state.is_host_focused;
        self.state.subtrees = self.next_state.subtrees.duplicate();
        self.state.graft_parents = self.next_state.graft_parents.duplicate();
        self.state.tree_index_map = self.next_state.tree_index_map.duplicate();
        assert(self.state.nodes@.dom() =~= self.next_state.nodes@.dom());
        Ok(())
    }

    /// Applies an update to the tree and tells the handler what changed:
    /// the nodes that were added, changed and removed, and a moved focus.
    /// Afterwards the reported state is the updated tree.
    pub fn update_and_process_changes<H: ChangeHandler>(&mut self, update: TreeUpdate, handler: &mut H) -> (r: Result<(), TreeError>)
        requires
            old(self).wf(),
        ensures
            r == Err::<(), TreeError>(TreeError::TooManyTrees) <==> (
                !old(self).current().index_map().index_of().contains_key(update.tree_id.0)
                && old(self).current().index_map().next_index() == u32::MAX),
            r == Err::<(), TreeError>(TreeError::SubtreeWithoutGraft) <==> (
                !(!old(self).current().index_map().index_of().contains_key(update.tree_id.0)
                    && old(self).current().index_map().next_index() == u32::MAX)
                && update.tree_id.0 != 0 && update.tree is Some
                && !old(self).current().grafts_view().contains_key(update.tree_id.0)),
            r == Err::<(), TreeError>(TreeError::UnknownSubtree) <==> (
                !(!old(self).current().index_map().index_of().contains_key(update.tree_id.0)
                    && old(self).current().index_map().next_index() == u32::MAX)
                && update.tree_id.0 != 0 && update.tree is None
                && !old(self).current().subtrees_view().contains_key(update.tree_id.0)),
            r == Err::<(), TreeError>(TreeError::DuplicateChild) ==>
                !flat_children(entries_view(update.nodes@), update.nodes@.len()).no_duplicates(),
            r is Err ==> is_update_error(r->Err_0) || r == Err::<(), TreeError>(TreeError::StaleChange),
            r is Err ==> update_faulty(old(self).pending(), update,
                final(self).pending().index_map().index_of()[update.tree_id.0])
                || focus_or_root_lost(final(self).pending()) || r == Err::<(), TreeError>(TreeError::StaleChange),
            r == Err::<(), TreeError>(TreeError::DuplicateGraft) ==> lists_some_graft(entries_view(update.nodes@)),
            r == Err::<(), TreeError>(TreeError::GraftWithChildren) ==> lists_graft_with_children(entries_view(update.nodes@)),
            r == Err::<(), TreeError>(TreeError::GraftOfRootTree) ==> lists_root_graft(entries_view(update.nodes@)),
            r == Err::<(), TreeError>(TreeError::UnattachedNodes) ==> lists_unattached(entries_view(update.nodes@),
                old(self).pending().nodes_view(), final(self).pending().index_map().index_of()[update.tree_id.0],
                update_root_local(old(self).pending(), update)),
            r == Err::<(), TreeError>(TreeError::MissingChildren) ==> lists_missing_child(entries_view(update.nodes@),
                old(self).pending().nodes_view(), final(self).pending().index_map().index_of()[update.tree_id.0]),
            r is Ok ==> {
                let idx = final(self).current().index_map().index_of()[update.tree_id.0];
                &&& final(self).wf()
                &&& final(self).current().subtrees_view().contains_key(0) ==> follow_focus(
                    final(self).current().nodes_view(),
                    final(self).current().subtrees_view(),
                    final(self).current().subtrees_view()[0].1,
                    final(self).current().subtrees_view().dom().len(),
                ) == FocusOutcome::Found(node_key(final(self).current().focus_view()))
                &&& final(self).current().host_focused() == old(self).current().host_focused()
                &&& final(self).current().index_map().index_of().contains_key(update.tree_id.0)
                &&& flat_children(entries_view(update.nodes@), update.nodes@.len()).no_duplicates()
                &&& data_follows(final(self).current().nodes_view(), old(self).current().nodes_view(), idx,
                    latest_data(entries_view(update.nodes@), update.nodes@.len()))
                &&& forall|c: (u64, u32)| #[trigger] dropped_child(entries_view(update.nodes@), old(self).current().nodes_view(),
                    idx, update.nodes@.len() as int, c) && c.1 == idx
                    && !flat_children(entries_view(update.nodes@), update.nodes@.len()).contains(NodeId(c.0))
                    && !listed_before(entries_view(update.nodes@), update.nodes@.len() as int, c.0)
                    ==> !final(self).current().nodes_view().contains_key(c)
                &&& (update.tree_id.0 == 0 && update.tree is Some) ==> {
                    &&& final(self).current().info_view() == update.tree.unwrap()@
                    &&& final(self).current().root_view() == FullNodeId { local: update.tree.unwrap().root, tree_index: TreeIndex(idx) }
                }
                &&& !(update.tree_id.0 == 0 && update.tree is Some) ==> {
                    &&& final(self).current().info_view() == old(self).current().info_view()
                    &&& final(self).current().root_view() == old(self).current().root_view()
                }
            },
    {
        let mut changes = InternalChanges::new();
        let is_host_focused = self.state.is_host_focused;
        let ghost base = self.next_state.nodes@;
        let ghost old_cur = self.state.nodes@;
        let ghost ev = entries_view(update.nodes@);
        let ghost n = update.nodes@.len();
        self.next_state.update(update, is_host_focused, &mut changes)?;
        let ghost idx = self.next_state.index_map().index_of()[update.tree_id.0];
        let ghost pending_nodes = self.next_state.nodes@;
        self.process_changes(changes, handler, Ghost(base))?;
        proof {
            let sv = self.state.subtrees_view();
            if sv.contains_key(0) {
                lemma_follow_focus_same_data(self.state.nodes_view(), self.next_state.nodes_view(), sv, sv[0].1, sv.dom().len());
            }
            lemma_data_follows_base(pending_nodes, base, old_cur, idx, latest_data(ev, n));
            lemma_data_follows_same(self.state.nodes@, pending_nodes, old_cur, idx, latest_data(ev, n));
            assert forall|c: (u64, u32)| #[trigger] dropped_child(ev, old_cur, idx, n as int, c) && c.1 == idx
                && !flat_children(ev, n).contains(NodeId(c.0)) && !listed_before(ev, n as int, c.0)
                implies !self.state.nodes@.contains_key(c) by {
                let j = choose|j: int| #![trigger ev[j]] 0 <= j < n && first_listing(ev, j) && old_cur.contains_key((ev[j].0.0, idx))
                    && old_cur[(ev[j].0.0, idx)].data.children().contains(NodeId(c.0));
                assert(base.contains_key((ev[j].0.0, idx)));
                assert(dropped_child(ev, base, idx, n as int, c));
                assert(!pending_nodes.contains_key(c));
            }
        }
        Ok(())
    }

    /// Records whether the host window has the focus, reapplying the
    /// current focus of the root tree, and tells the handler what changed.
    pub fn update_host_focus_state_and_process_changes<H: ChangeHandler>(
        &mut self,
        is_host_focused: bool,
        handler: &mut H,
    ) -> (r: Result<(), TreeError>)
        requires
            old(self).wf(),
        ensures
            r == Err::<(), TreeError>(TreeError::TooManyTrees) <==> (
                !old(self).current().index_map().index_of().contains_key(0)
                && old(self).current().index_map().next_index() == u32::MAX),
            r != Err::<(), TreeError>(TreeError::SubtreeWithoutGraft),
            r != Err::<(), TreeError>(TreeError::UnknownSubtree),
            r != Err::<(), TreeError>(TreeError::DuplicateChild),
            r is Err ==> is_update_error(r->Err_0) || r == Err::<(), TreeError>(TreeError::StaleChange),
            r is Err ==> (!old(self).current().index_map().index_of().contains_key(0)
                && old(self).current().index_map().next_index() == u32::MAX)
                || focus_or_root_lost(final(self).pending()) || r == Err::<(), TreeError>(TreeError::StaleChange),
            r is Ok ==> {
                &&& final(self).wf()
                &&& final(self).current().host_focused() == is_host_focused
                &&& final(self).current().info_view() == old(self).current().info_view()
                &&& final(self).current().root_view() == old(self).current().root_view()
                &&& final(self).current().index_map().index_of().contains_key(0)
                &&& final(self).current().subtrees_view().contains_key(0) ==> follow_focus(
                    final(self).current().nodes_view(),
                    final(self).current().subtrees_view(),
                    final(self).current().subtrees_view()[0].1,
                    final(self).current().subtrees_view().dom().len(),
                ) == FocusOutcome::Found(node_key(final(self).current().focus_view()))
                &&& forall|k: (u64, u32)| #[trigger] final(self).current().nodes_view().contains_key(k) ==> {
                    &&& old(self).current().nodes_view().contains_key(k)
                    &&& final(self).current().nodes_view()[k].data == old(self).current().nodes_view()[k].data
                }
            },
    {
        let mut changes = InternalChanges::new();
        let ghost base = self.next_state.nodes@;
        let ghost old_cur = self.state.nodes@;
        let focus = self.next_state.focus.local;
        let update = TreeUpdate { nodes: Vec::new(), tree: None, tree_id: TreeId::root(), focus };
        let ghost ev = entries_view(update.nodes@);
        self.next_state.update(update, is_host_focused, &mut changes)?;
        let ghost idx = self.next_state.index_map().index_of()[0];
        let ghost pending_nodes = self.next_state.nodes@;
        self.process_changes(changes, handler, Ghost(base))?;
        proof {
            let sv = self.state.subtrees_view();
            if sv.contains_key(0) {
                lemma_follow_focus_same_data(self.state.nodes_view(), self.next_state.nodes_view(), sv, sv[0].1, sv.dom().len());
            }
            assert(latest_data(ev, 0) == Map::<u64, NodeView>::empty());
            lemma_data_follows_base(pending_nodes, base, old_cur, idx, latest_data(ev, 0));
            lemma_data_follows_same(self.state.nodes@, pending_nodes, old_cur, idx, latest_data(ev, 0));
        }
        Ok(())
    }
}

impl TreeState {
    /// How many nodes are stored.
    pub fn node_count(&self) -> (r: usize)
        ensures
            r == self.nodes_view().dom().len(),
    {
        self.nodes.len()
    }
}

impl TreeState {
    /// The graft node of the subtree with identifier `tree_id`, if any.
    pub fn graft_parent(&self, tree_id: TreeId) -> (r: Option<FullNodeId>)
        ensures
            r is Some <==> self.grafts_view().contains_key(tree_id.0),
            r is Some ==> r.unwrap() == key_node(self.grafts_view()[tree_id.0]),
    {
        self.graft_parents.get(tree_id.0)
    }
}

} // verus!
