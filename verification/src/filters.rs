//! Filters decide which nodes of a tree a platform shows: a node is
//! included, left out while its children may still show, or left out with
//! its whole subtree. Filtered navigation skips what a filter leaves out.

use vstd::prelude::*;

use crate::ids::{key_node, node_key, FullNodeId, NodeStateView, TreeIndex};
use crate::iterators::{following_ids, preceding_ids};
use crate::node::{ancestor_at, child_ids_of};
use crate::roles::{Flag, Role};
use crate::iterators::FilteredChildren;
use crate::schema::{node_id_vec_value, string_value, NodeId, PROP_LABELLED_BY, PROP_NAME};
use crate::tree::{NodeRef, TreeState};
use vstd::string::StringExecFns;

verus! {

/// What a filter makes of a node.
#[derive(Clone, Copy, Debug, Hash, PartialEq, Eq, Structural, PartialOrd, Ord)]
pub enum FilterResult {
    /// The node is shown.
    Include,
    /// The node is not shown, but its children may be.
    ExcludeNode,
    /// Neither the node nor anything below it is shown.
    ExcludeSubtree,
}

/// The verdict of the common filter that comes from the node alone, if any:
/// the focused node is shown; a hidden node is left out with its subtree;
/// graft nodes, generic containers and text runs are left out themselves.
pub open spec fn common_base(tree: TreeState, id: FullNodeId, d: crate::schema::NodeView) -> Option<FilterResult> {
    if tree.host_focused() && tree.focus_view() == id {
        Some(FilterResult::Include)
    } else if d.has_flag(Flag::Hidden) {
        Some(FilterResult::ExcludeSubtree)
    } else if d.tree_id() is Some {
        Some(FilterResult::ExcludeNode)
    } else if d.role == Role::GenericContainer || d.role == Role::TextRun {
        Some(FilterResult::ExcludeNode)
    } else {
        None
    }
}

/// The common filter on stored node `k`, looking at most `fuel` ancestors
/// up: a node without a verdict of its own is left out with its subtree
/// when its parent is, and shown otherwise.
pub open spec fn common_stored(tree: TreeState, k: (u64, u32), fuel: nat) -> FilterResult
    decreases fuel,
{
    let d = tree.nodes_view()[k].data;
    match common_base(tree, key_node(k), d) {
        Some(r) => r,
        None => {
            let p = tree.nodes_view()[k].parent;
            if fuel > 0 && p is Some && tree.nodes_view().contains_key(p.unwrap().0)
                && common_stored(tree, p.unwrap().0, (fuel - 1) as nat) == FilterResult::ExcludeSubtree {
                FilterResult::ExcludeSubtree
            } else {
                FilterResult::Include
            }
        },
    }
}

/// The common filter on a node: its own verdict if it has one, else that
/// of its stored parent (looking up at most as many ancestors as the tree
/// has nodes) when that is to leave the subtree out, else shown.
pub open spec fn common_spec(node: NodeRef) -> FilterResult {
    match common_base(node.tree(), node.id_view(), node.state_view().data) {
        Some(r) => r,
        None => {
            let p = node.state_view().parent;
            let n = node.tree().nodes_view().dom().len();
            if p is Some && node.tree().nodes_view().contains_key(p.unwrap().0)
                && common_stored(node.tree(), p.unwrap().0, n) == FilterResult::ExcludeSubtree {
                FilterResult::ExcludeSubtree
            } else {
                FilterResult::Include
            }
        },
    }
}

/// The verdict of the common filter that comes from the node alone.
fn common_filter_base(node: &NodeRef) -> (r: Option<FilterResult>)
    ensures
        r == common_base(node.tree(), node.id_view(), node.state_view().data),
{
    if node.is_focused() {
        return Some(FilterResult::Include);
    }
    if node.is_hidden() {
        return Some(FilterResult::ExcludeSubtree);
    }
    if node.is_graft() {
        return Some(FilterResult::ExcludeNode);
    }
    let role = node.role();
    if role == Role::GenericContainer || role == Role::TextRun {
        return Some(FilterResult::ExcludeNode);
    }
    None
}

/// The verdict of the common filter that stored node `k` has of its own.
pub open spec fn own_verdict(tree: TreeState, k: (u64, u32)) -> Option<FilterResult> {
    common_base(tree, key_node(k), tree.nodes_view()[k].data)
}

/// With enough ancestors to look at, a node without a verdict of its own
/// is left out with its subtree when the nearest ancestor with a verdict
/// leaves its subtree out.
proof fn lemma_excluded_by_ancestor(tree: TreeState, k: (u64, u32), d: nat, fuel: nat)
    requires
        d <= fuel,
        ancestor_at(tree, k, d) is Some,
        own_verdict(tree, ancestor_at(tree, k, d).unwrap()) == Some(FilterResult::ExcludeSubtree),
        forall|i: nat| i < d ==> #[trigger] own_verdict(tree, ancestor_at(tree, k, i).unwrap()) is None,
    ensures
        common_stored(tree, k, fuel) == FilterResult::ExcludeSubtree,
    decreases d,
{
    if d > 0 {
        assert(ancestor_at(tree, k, 0) == Some(k));
        assert(own_verdict(tree, ancestor_at(tree, k, 0).unwrap()) is None);
        let p = tree.nodes_view()[k].parent.unwrap().0;
        assert forall|i: nat| i < (d - 1) as nat implies #[trigger] own_verdict(tree, ancestor_at(tree, p, i).unwrap()) is None by {
            assert(ancestor_at(tree, k, i + 1) == ancestor_at(tree, p, i));
            assert(own_verdict(tree, ancestor_at(tree, k, (i + 1) as nat).unwrap()) is None);
        }
        lemma_excluded_by_ancestor(tree, p, (d - 1) as nat, (fuel - 1) as nat);
    }
}

/// A hidden subtree is left out whole: when a node and the ancestors
/// between it and the ancestor `d` links up have no verdict of their own,
/// and that ancestor is hidden and not focused, the common filter (what
/// [`common_filter`] gives) leaves the node out with its subtree, at any
/// depth up to the number of nodes in the tree.
pub proof fn law_common_filter_hidden_ancestor(node: NodeRef, d: nat)
    requires
        node.wf(),
        1 <= d <= node.tree().nodes_view().dom().len(),
        ancestor_at(node.tree(), node_key(node.id_view()), d) is Some,
        own_verdict(node.tree(), ancestor_at(node.tree(), node_key(node.id_view()), d).unwrap())
            == Some(FilterResult::ExcludeSubtree),
        forall|i: nat| i < d ==> #[trigger] own_verdict(node.tree(), ancestor_at(node.tree(), node_key(node.id_view()), i).unwrap())
            is None,
    ensures
        common_spec(node) == FilterResult::ExcludeSubtree,
{
    let t = node.tree();
    let k = node_key(node.id_view());
    crate::ids::lemma_key_roundtrip(node.id_view());
    assert(ancestor_at(t, k, 0) == Some(k));
    assert(own_verdict(t, ancestor_at(t, k, 0).unwrap()) is None);
    let p = t.nodes_view()[k].parent.unwrap().0;
    assert forall|i: nat| i < (d - 1) as nat implies #[trigger] own_verdict(t, ancestor_at(t, p, i).unwrap()) is None by {
        assert(ancestor_at(t, k, i + 1) == ancestor_at(t, p, i));
        assert(own_verdict(t, ancestor_at(t, k, (i + 1) as nat).unwrap()) is None);
    }
    lemma_excluded_by_ancestor(t, p, (d - 1) as nat, t.nodes_view().dom().len());
}

/// Only a parent that leaves its subtree out hides a node without a
/// verdict of its own: when the parent's own verdict is to show it, or to
/// leave out the parent alone, the node is shown; so is a node without a
/// stored parent.
pub proof fn law_common_filter_shown_below_parent(node: NodeRef)
    requires
        node.wf(),
        own_verdict(node.tree(), node_key(node.id_view())) is None,
        node.state_view().parent is None
            || !node.tree().nodes_view().contains_key(node.state_view().parent.unwrap().0)
            || own_verdict(node.tree(), node.state_view().parent.unwrap().0) == Some(FilterResult::Include)
            || own_verdict(node.tree(), node.state_view().parent.unwrap().0) == Some(FilterResult::ExcludeNode),
    ensures
        common_spec(node) == FilterResult::Include,
{
    crate::ids::lemma_key_roundtrip(node.id_view());
}

/// A node with a verdict of its own gets that verdict, whatever is above it.
pub proof fn law_common_filter_own_verdict(node: NodeRef)
    requires
        node.wf(),
        own_verdict(node.tree(), node_key(node.id_view())) is Some,
    ensures
        common_spec(node) == own_verdict(node.tree(), node_key(node.id_view())).unwrap(),
{
    crate::ids::lemma_key_roundtrip(node.id_view());
}

/// The common filter that a hidden node gives is to leave its subtree out,
/// unless it has the focus: hiding is a verdict of the node's own.
pub proof fn law_hidden_node_verdict(tree: TreeState, k: (u64, u32))
    requires
        tree.nodes_view()[k].data.has_flag(Flag::Hidden),
        !(tree.host_focused() && tree.focus_view() == key_node(k)),
    ensures
        own_verdict(tree, k) == Some(FilterResult::ExcludeSubtree),
{
}

/// The common filter on a stored node, with at most `fuel` ancestors.
fn common_filter_stored(node: &NodeRef, fuel: usize) -> (r: FilterResult)
    requires
        node.wf(),
    ensures
        r == common_stored(node.tree(), node_key(node.id_view()), fuel as nat),
    decreases fuel,
{
    match common_filter_base(node) {
        Some(r) => r,
        None => {
            if fuel > 0 {
                match node.parent() {
                    Some(parent) => {
                        if common_filter_stored(&parent, fuel - 1) == FilterResult::ExcludeSubtree {
                            return FilterResult::ExcludeSubtree;
                        }
                    },
                    None => {},
                }
            }
            FilterResult::Include
        },
    }
}

/// The filter that platform adapters use by default: the focused node is
/// shown; hidden nodes are left out with their subtrees, and so is a node
/// whose parent is; graft nodes, generic containers and text runs are left
/// out but their children may show.
pub fn common_filter(node: &NodeRef) -> (r: FilterResult)
    ensures
        r == common_spec(*node),
{
    match common_filter_base(node) {
        Some(r) => r,
        None => {
            let n = node.tree_state().node_count();
            match node.parent() {
                Some(parent) => {
                    if common_filter_stored(&parent, n) == FilterResult::ExcludeSubtree {
                        return FilterResult::ExcludeSubtree;
                    }
                },
                None => {},
            }
            FilterResult::Include
        },
    }
}

/// The common filter, except that the root is always shown.
pub fn common_filter_with_root_exception(node: &NodeRef) -> (r: FilterResult)
    ensures
        r == (if node.id_view() == node.tree().root_view() { FilterResult::Include } else { common_spec(*node) }),
{
    if node.is_root() {
        return FilterResult::Include;
    }
    common_filter(node)
}

/// A filter can be asked about any node.
pub open spec fn filter_total<'a, F: Fn(&NodeRef<'a>) -> FilterResult>(filter: F) -> bool {
    forall|n: &NodeRef<'a>| #[trigger] filter.requires((n,))
}

/// A node that `filter` shows, of the same tree as `anchor`.
pub open spec fn shown_by<'a, F: Fn(&NodeRef<'a>) -> FilterResult>(filter: F, n: NodeRef<'a>, anchor: NodeRef<'a>) -> bool {
    &&& n.wf()
    &&& n.tree() == anchor.tree()
    &&& filter.ensures((&n,), FilterResult::Include)
}

/// `filter` decides by `g` in tree state `t`: what it gives a stored node
/// of `t` is what `g` gives the node's identifier and stored state.
pub open spec fn decided_by<'a, F: Fn(&NodeRef<'a>) -> FilterResult>(
    filter: F,
    t: TreeState,
    g: spec_fn(FullNodeId, NodeStateView) -> FilterResult,
) -> bool {
    forall|n: &NodeRef<'a>, r: FilterResult| n.wf() && n.tree() == t && #[trigger] filter.ensures((n,), r)
        ==> r == g(n.id_view(), n.state_view())
}

/// The identifier of a node, if there is one.
pub open spec fn opt_id<'a>(r: Option<NodeRef<'a>>) -> Option<FullNodeId> {
    match r {
        Some(n) => Some(n.id_view()),
        None => None,
    }
}

/// The children of stored node `id` that are stored, in order.
pub open spec fn stored_children(t: TreeState, id: FullNodeId) -> Seq<FullNodeId> {
    crate::node::stored_nodes(t, child_ids_of(t, id))
}

/// The first of the nodes `ids` that `g` shows, or failing that the first
/// node that `g` shows below one of them that it leaves out itself (at
/// most `depth` levels down), trying them in order.
pub open spec fn first_shown_in(
    t: TreeState,
    ids: Seq<FullNodeId>,
    g: spec_fn(FullNodeId, NodeStateView) -> FilterResult,
    depth: nat,
) -> Option<FullNodeId>
    decreases depth, ids.len(),
{
    if ids.len() == 0 {
        None
    } else {
        let c = ids[0];
        let res = g(c, t.nodes_view()[node_key(c)]);
        if res == FilterResult::Include {
            Some(c)
        } else {
            let below = if res == FilterResult::ExcludeNode && depth > 0 {
                first_shown_in(t, stored_children(t, c), g, (depth - 1) as nat)
            } else {
                None
            };
            if below is Some {
                below
            } else {
                first_shown_in(t, ids.drop_first(), g, depth)
            }
        }
    }
}

/// The mirror image of [`first_shown_in`]: the nodes are tried from the
/// last.
pub open spec fn last_shown_in(
    t: TreeState,
    ids: Seq<FullNodeId>,
    g: spec_fn(FullNodeId, NodeStateView) -> FilterResult,
    depth: nat,
) -> Option<FullNodeId>
    decreases depth, ids.len(),
{
    if ids.len() == 0 {
        None
    } else {
        let c = ids.last();
        let res = g(c, t.nodes_view()[node_key(c)]);
        if res == FilterResult::Include {
            Some(c)
        } else {
            let below = if res == FilterResult::ExcludeNode && depth > 0 {
                last_shown_in(t, stored_children(t, c), g, (depth - 1) as nat)
            } else {
                None
            };
            if below is Some {
                below
            } else {
                last_shown_in(t, ids.drop_last(), g, depth)
            }
        }
    }
}

/// The node reached from `id` by taking the first node that `g` shows
/// below it (see [`first_shown_in`]), again and again, at most `fuel` times.
pub open spec fn descend_first(
    t: TreeState,
    id: FullNodeId,
    g: spec_fn(FullNodeId, NodeStateView) -> FilterResult,
    depth: nat,
    fuel: nat,
) -> FullNodeId
    decreases fuel,
{
    if fuel == 0 {
        id
    } else {
        match first_shown_in(t, stored_children(t, id), g, depth) {
            Some(c) => descend_first(t, c, g, depth, (fuel - 1) as nat),
            None => id,
        }
    }
}

/// The mirror image of [`descend_first`], taking the last node each time.
pub open spec fn descend_last(
    t: TreeState,
    id: FullNodeId,
    g: spec_fn(FullNodeId, NodeStateView) -> FilterResult,
    depth: nat,
    fuel: nat,
) -> FullNodeId
    decreases fuel,
{
    if fuel == 0 {
        id
    } else {
        match last_shown_in(t, stored_children(t, id), g, depth) {
            Some(c) => descend_last(t, c, g, depth, (fuel - 1) as nat),
            None => id,
        }
    }
}

/// The nearest stored ancestor of stored node `id` that `g` shows,
/// looking at most `fuel` + 1 ancestors up.
pub open spec fn shown_ancestor(
    t: TreeState,
    id: FullNodeId,
    g: spec_fn(FullNodeId, NodeStateView) -> FilterResult,
    fuel: nat,
) -> Option<FullNodeId>
    decreases fuel,
{
    let p = t.nodes_view()[node_key(id)].parent;
    if p is None || !t.nodes_view().contains_key(p.unwrap().0) {
        None
    } else if g(key_node(p.unwrap().0), t.nodes_view()[p.unwrap().0]) == FilterResult::Include {
        Some(key_node(p.unwrap().0))
    } else if fuel == 0 {
        None
    } else {
        shown_ancestor(t, key_node(p.unwrap().0), g, (fuel - 1) as nat)
    }
}

/// The nearest ancestor of `node` that `filter` shows, looking at most
/// as many ancestors up as the tree has nodes.
pub fn filtered_parent<'a, F: Fn(&NodeRef<'a>) -> FilterResult>(node: &NodeRef<'a>, filter: &F) -> (r: Option<NodeRef<'a>>)
    requires
        node.wf(),
        filter_total(*filter),
    ensures
        r is Some ==> shown_by(*filter, r.unwrap(), *node),
        forall|g: spec_fn(FullNodeId, NodeStateView) -> FilterResult| decided_by(*filter, node.tree(), g) ==> opt_id(r)
            == shown_ancestor(node.tree(), node.id_view(), g, node.tree().nodes_view().dom().len()),
{
    let mut current = *node;
    let mut fuel: usize = node.tree_state().node_count();
    loop
        invariant
            current.wf(),
            current.tree() == node.tree(),
            filter_total(*filter),
            forall|g: spec_fn(FullNodeId, NodeStateView) -> FilterResult| decided_by(*filter, node.tree(), g) ==>
                shown_ancestor(node.tree(), node.id_view(), g, node.tree().nodes_view().dom().len())
                    == shown_ancestor(node.tree(), current.id_view(), g, fuel as nat),
        decreases fuel,
    {
        let parent = match current.parent() {
            Some(p) => p,
            None => {
                return None;
            },
        };
        proof {
            crate::ids::lemma_key_roundtrip(parent.id_view());
        }
        if filter(&parent) == FilterResult::Include {
            return Some(parent);
        }
        if fuel == 0 {
            return None;
        }
        fuel = fuel - 1;
        current = parent;
    }
}

/// The first node below `node`, in order, that `filter` shows, going into
/// the children of nodes that it leaves out themselves, at most `depth`
/// levels down.
fn first_filtered_child_within<'a, F: Fn(&NodeRef<'a>) -> FilterResult>(
    node: &NodeRef<'a>,
    filter: &F,
    depth: usize,
) -> (r: Option<NodeRef<'a>>)
    requires
        node.wf(),
        filter_total(*filter),
    ensures
        r is Some ==> shown_by(*filter, r.unwrap(), *node),
        forall|g: spec_fn(FullNodeId, NodeStateView) -> FilterResult| decided_by(*filter, node.tree(), g) ==> opt_id(r)
            == first_shown_in(node.tree(), stored_children(node.tree(), node.id_view()), g, depth as nat),
    decreases depth,
{
    let children = node.children();
    let ghost t = node.tree();
    let ghost cids = children@.map_values(|n: NodeRef<'a>| n.id_view());
    assert(cids == stored_children(t, node.id_view()));
    assert(cids.skip(0) == cids);
    let mut i: usize = 0;
    while i < children.len()
        invariant
            i <= children@.len(),
            filter_total(*filter),
            t == node.tree(),
            cids == children@.map_values(|n: NodeRef<'a>| n.id_view()),
            cids == stored_children(t, node.id_view()),
            forall|w: int| 0 <= w < children@.len() ==> #[trigger] children@[w].tree() == node.tree() && children@[w].wf(),
            forall|g: spec_fn(FullNodeId, NodeStateView) -> FilterResult| decided_by(*filter, node.tree(), g) ==>
                first_shown_in(t, cids, g, depth as nat) == first_shown_in(t, cids.skip(i as int), g, depth as nat),
        decreases children@.len() - i,
    {
        let child = children[i];
        let result = filter(&child);
        proof {
            assert(cids[i as int] == child.id_view());
            assert(cids.skip(i as int).drop_first() == cids.skip(i as int + 1));
            assert(cids.skip(i as int)[0] == cids[i as int]);
        }
        if result == FilterResult::Include {
            return Some(child);
        }
        if result == FilterResult::ExcludeNode && depth > 0 {
            match first_filtered_child_within(&child, filter, depth - 1) {
                Some(d) => {
                    return Some(d);
                },
                None => {},
            }
        }
        i = i + 1;
    }
    proof {
        assert(cids.skip(i as int).len() == 0);
    }
    None
}

/// The last node below `node`, in order, that `filter` shows, going into
/// the children of nodes that it leaves out themselves, at most `depth`
/// levels down.
fn last_filtered_child_within<'a, F: Fn(&NodeRef<'a>) -> FilterResult>(
    node: &NodeRef<'a>,
    filter: &F,
    depth: usize,
) -> (r: Option<NodeRef<'a>>)
    requires
        node.wf(),
        filter_total(*filter),
    ensures
        r is Some ==> shown_by(*filter, r.unwrap(), *node),
        forall|g: spec_fn(FullNodeId, NodeStateView) -> FilterResult| decided_by(*filter, node.tree(), g) ==> opt_id(r)
            == last_shown_in(node.tree(), stored_children(node.tree(), node.id_view()), g, depth as nat),
    decreases depth,
{
    let children = node.children();
    let ghost t = node.tree();
    let ghost cids = children@.map_values(|n: NodeRef<'a>| n.id_view());
    assert(cids == stored_children(t, node.id_view()));
    assert(cids.take(cids.len() as int) == cids);
    let mut i: usize = children.len();
    while i > 0
        invariant
            i <= children@.len(),
            filter_total(*filter),
            t == node.tree(),
            cids == children@.map_values(|n: NodeRef<'a>| n.id_view()),
            cids == stored_children(t, node.id_view()),
            forall|w: int| 0 <= w < children@.len() ==> #[trigger] children@[w].tree() == node.tree() && children@[w].wf(),
            forall|g: spec_fn(FullNodeId, NodeStateView) -> FilterResult| decided_by(*filter, node.tree(), g) ==>
                last_shown_in(t, cids, g, depth as nat) == last_shown_in(t, cids.take(i as int), g, depth as nat),
        decreases i,
    {
        i = i - 1;
        let child = children[i];
        let result = filter(&child);
        proof {
            assert(cids[i as int] == child.id_view());
            assert(cids.take(i as int + 1).drop_last() == cids.take(i as int));
            assert(cids.take(i as int + 1).last() == cids[i as int]);
        }
        if result == FilterResult::Include {
            return Some(child);
        }
        if result == FilterResult::ExcludeNode && depth > 0 {
            match last_filtered_child_within(&child, filter, depth - 1) {
                Some(d) => {
                    return Some(d);
                },
                None => {},
            }
        }
    }
    proof {
        assert(cids.take(0).len() == 0);
    }
    None
}

/// The first node below `node` that `filter` shows, going into the
/// children of nodes that it leaves out themselves.
pub fn first_filtered_child<'a, F: Fn(&NodeRef<'a>) -> FilterResult>(node: &NodeRef<'a>, filter: &F) -> (r: Option<NodeRef<'a>>)
    requires
        node.wf(),
        filter_total(*filter),
    ensures
        r is Some ==> shown_by(*filter, r.unwrap(), *node),
        forall|g: spec_fn(FullNodeId, NodeStateView) -> FilterResult| decided_by(*filter, node.tree(), g) ==> opt_id(r)
            == first_shown_in(node.tree(), stored_children(node.tree(), node.id_view()), g, node.tree().nodes_view().dom().len()),
{
    first_filtered_child_within(node, filter, node.tree_state().node_count())
}

/// The last node below `node` that `filter` shows, going into the
/// children of nodes that it leaves out themselves.
pub fn last_filtered_child<'a, F: Fn(&NodeRef<'a>) -> FilterResult>(node: &NodeRef<'a>, filter: &F) -> (r: Option<NodeRef<'a>>)
    requires
        node.wf(),
        filter_total(*filter),
    ensures
        r is Some ==> shown_by(*filter, r.unwrap(), *node),
        forall|g: spec_fn(FullNodeId, NodeStateView) -> FilterResult| decided_by(*filter, node.tree(), g) ==> opt_id(r)
            == last_shown_in(node.tree(), stored_children(node.tree(), node.id_view()), g, node.tree().nodes_view().dom().len()),
{
    last_filtered_child_within(node, filter, node.tree_state().node_count())
}

/// The node reached by taking the first child that `filter` shows, again
/// and again, while there is one; at most as many steps as the tree has
/// nodes.
pub fn deepest_first_filtered_child<'a, F: Fn(&NodeRef<'a>) -> FilterResult>(node: &NodeRef<'a>, filter: &F) -> (r: Option<NodeRef<'a>>)
    requires
        node.wf(),
        filter_total(*filter),
    ensures
        r is Some ==> shown_by(*filter, r.unwrap(), *node),
        forall|g: spec_fn(FullNodeId, NodeStateView) -> FilterResult| decided_by(*filter, node.tree(), g) ==> opt_id(r) == {
            let n = node.tree().nodes_view().dom().len();
            match first_shown_in(node.tree(), stored_children(node.tree(), node.id_view()), g, n) {
                Some(c) => Some(descend_first(node.tree(), c, g, n, n)),
                None => None,
            }
        },
{
    let ghost t = node.tree();
    let ghost n = node.tree().nodes_view().dom().len();
    let mut deepest = match first_filtered_child(node, filter) {
        Some(c) => c,
        None => {
            return None;
        },
    };
    let mut fuel: usize = node.tree_state().node_count();
    loop
        invariant
            shown_by(*filter, deepest, *node),
            filter_total(*filter),
            t == node.tree(),
            n == t.nodes_view().dom().len(),
            forall|g: spec_fn(FullNodeId, NodeStateView) -> FilterResult| decided_by(*filter, node.tree(), g) ==>
                first_shown_in(t, stored_children(t, node.id_view()), g, n) is Some
                && descend_first(t, first_shown_in(t, stored_children(t, node.id_view()), g, n).unwrap(), g, n, n)
                    == descend_first(t, deepest.id_view(), g, n, fuel as nat),
        decreases fuel,
    {
        if fuel == 0 {
            return Some(deepest);
        }
        fuel = fuel - 1;
        match first_filtered_child(&deepest, filter) {
            Some(c) => {
                deepest = c;
            },
            None => {
                return Some(deepest);
            },
        }
    }
}

/// The node reached by taking the last child that `filter` shows, again
/// and again, while there is one; at most as many steps as the tree has
/// nodes.
pub fn deepest_last_filtered_child<'a, F: Fn(&NodeRef<'a>) -> FilterResult>(node: &NodeRef<'a>, filter: &F) -> (r: Option<NodeRef<'a>>)
    requires
        node.wf(),
        filter_total(*filter),
    ensures
        r is Some ==> shown_by(*filter, r.unwrap(), *node),
        forall|g: spec_fn(FullNodeId, NodeStateView) -> FilterResult| decided_by(*filter, node.tree(), g) ==> opt_id(r) == {
            let n = node.tree().nodes_view().dom().len();
            match last_shown_in(node.tree(), stored_children(node.tree(), node.id_view()), g, n) {
                Some(c) => Some(descend_last(node.tree(), c, g, n, n)),
                None => None,
            }
        },
{
    let ghost t = node.tree();
    let ghost n = node.tree().nodes_view().dom().len();
    let mut deepest = match last_filtered_child(node, filter) {
        Some(c) => c,
        None => {
            return None;
        },
    };
    let mut fuel: usize = node.tree_state().node_count();
    loop
        invariant
            shown_by(*filter, deepest, *node),
            filter_total(*filter),
            t == node.tree(),
            n == t.nodes_view().dom().len(),
            forall|g: spec_fn(FullNodeId, NodeStateView) -> FilterResult| decided_by(*filter, node.tree(), g) ==>
                last_shown_in(t, stored_children(t, node.id_view()), g, n) is Some
                && descend_last(t, last_shown_in(t, stored_children(t, node.id_view()), g, n).unwrap(), g, n, n)
                    == descend_last(t, deepest.id_view(), g, n, fuel as nat),
        decreases fuel,
    {
        if fuel == 0 {
            return Some(deepest);
        }
        fuel = fuel - 1;
        match last_filtered_child(&deepest, filter) {
            Some(c) => {
                deepest = c;
            },
            None => {
                return Some(deepest);
            },
        }
    }
}

/// Roles whose label may come from their descendants.
pub open spec fn labelled_by_descendants_role(role: Role) -> bool {
    ||| role == Role::Button
    ||| role == Role::CheckBox
    ||| role == Role::DefaultButton
    ||| role == Role::Link
    ||| role == Role::MenuItem
    ||| role == Role::MenuItemCheckBox
    ||| role == Role::MenuItemRadio
    ||| role == Role::RadioButton
}

/// Of the identifiers `ids`, in order, those whose node is stored in `tree`
/// under the tree index `tree_index`.
pub open spec fn stored_ids(tree: TreeState, tree_index: TreeIndex, ids: Seq<NodeId>) -> Seq<NodeId>
    decreases ids.len(),
{
    if ids.len() == 0 {
        Seq::empty()
    } else {
        let rest = stored_ids(tree, tree_index, ids.drop_last());
        if tree.nodes_view().contains_key(node_key(FullNodeId { local: ids.last(), tree_index })) {
            rest.push(ids.last())
        } else {
            rest
        }
    }
}

/// The filter for labels among a control's descendants: labels and images
/// are shown, generic containers are looked into, anything else is left
/// out with its subtree.
pub fn descendant_label_filter(node: &NodeRef) -> (r: FilterResult)
    ensures
        r == (if node.state_view().data.role == Role::Label || node.state_view().data.role == Role::Image {
            FilterResult::Include
        } else if node.state_view().data.role == Role::GenericContainer {
            FilterResult::ExcludeNode
        } else {
            FilterResult::ExcludeSubtree
        }),
{
    match node.role() {
        Role::Label | Role::Image => FilterResult::Include,
        Role::GenericContainer => FilterResult::ExcludeNode,
        _ => FilterResult::ExcludeSubtree,
    }
}

/// What the filter for labels among a control's descendants decides for a
/// node with state `st` (see [`descendant_label_filter`]).
pub open spec fn label_decision() -> spec_fn(FullNodeId, NodeStateView) -> FilterResult {
    |id: FullNodeId, st: NodeStateView| if st.data.role == Role::Label || st.data.role == Role::Image {
        FilterResult::Include
    } else if st.data.role == Role::GenericContainer {
        FilterResult::ExcludeNode
    } else {
        FilterResult::ExcludeSubtree
    }
}

impl<'a> NodeRef<'a> {
    /// The nodes that label this one: those it names as its labels (the
    /// stored ones, in order); or, if it names none and is a button, check
    /// box, link, menu item or radio button, the labels and images among its
    /// descendants, looking into generic containers (at most as many as the
    /// tree has nodes).
    pub fn labelled_by(&self) -> (r: Vec<NodeRef<'a>>)
        requires
            self.wf(),
        ensures
            forall|i: int| 0 <= i < r@.len() ==> (#[trigger] r@[i]).wf() && r@[i].tree() == self.tree(),
            !(node_id_vec_value(self.state_view().data.prop(PROP_LABELLED_BY)).len() == 0
                && labelled_by_descendants_role(self.state_view().data.role)) ==> {
                let ids = node_id_vec_value(self.state_view().data.prop(PROP_LABELLED_BY));
                &&& r@.map_values(|n: NodeRef<'a>| n.id_view().local)
                    == stored_ids(self.tree(), self.id_view().tree_index, ids)
                &&& forall|i: int| 0 <= i < r@.len() ==> (#[trigger] r@[i]).id_view().tree_index == self.id_view().tree_index
            },
            (node_id_vec_value(self.state_view().data.prop(PROP_LABELLED_BY)).len() == 0
                && labelled_by_descendants_role(self.state_view().data.role)) ==>
                forall|i: int| 0 <= i < r@.len() ==> ((#[trigger] r@[i]).state_view().data.role == Role::Label
                    || r@[i].state_view().data.role == Role::Image),
            (node_id_vec_value(self.state_view().data.prop(PROP_LABELLED_BY)).len() == 0
                && labelled_by_descendants_role(self.state_view().data.role)) ==>
                crate::table::node_ids(r@) == crate::iterators::filtered_children_of(self.tree(), label_decision(),
                    self.id_view(), self.tree().nodes_view().dom().len()),
    {
        let explicit = self.data().labelled_by();
        let role = self.role();
        let mut out: Vec<NodeRef<'a>> = Vec::new();
        let from_descendants = explicit.len() == 0 && match role {
            Role::Button | Role::CheckBox | Role::DefaultButton | Role::Link | Role::MenuItem
            | Role::MenuItemCheckBox | Role::MenuItemRadio | Role::RadioButton => true,
            _ => false,
        };
        if from_descendants {
            let label_filter = |n: &NodeRef<'a>| -> (fr: FilterResult)
                ensures
                    fr == (if n.state_view().data.role == Role::Label || n.state_view().data.role == Role::Image {
                        FilterResult::Include
                    } else if n.state_view().data.role == Role::GenericContainer {
                        FilterResult::ExcludeNode
                    } else {
                        FilterResult::ExcludeSubtree
                    }),
                { descendant_label_filter(n) };
            let ghost t = self.tree();
            let ghost nn = t.nodes_view().dom().len();
            assert(decided_by(label_filter, t, label_decision()));
            let mut children = FilteredChildren::new(*self, label_filter);
            let mut fuel: usize = self.tree_state().node_count();
            loop
                invariant
                    t == self.tree(),
                    nn == t.nodes_view().dom().len(),
                    decided_by(label_filter, t, label_decision()),
                    crate::iterators::filtered_children_of(t, label_decision(), self.id_view(), nn)
                        == crate::table::node_ids(out@) + crate::iterators::shown_children_seq(t, label_decision(),
                            children.front_view(), children.back_view(), children.done_view(), fuel as nat),
                    children.wf(),
                    children.filter_view() == label_filter,
                    forall|m: &NodeRef<'a>, fr: FilterResult| #[trigger] label_filter.ensures((m,), fr) ==>
                        (fr == FilterResult::Include ==> m.state_view().data.role == Role::Label
                            || m.state_view().data.role == Role::Image),
                    children.tree_view() == self.tree(),
                    forall|i: int| 0 <= i < out@.len() ==> (#[trigger] out@[i]).wf() && out@[i].tree() == self.tree()
                        && (out@[i].state_view().data.role == Role::Label || out@[i].state_view().data.role == Role::Image),
                ensures
                    forall|i: int| 0 <= i < out@.len() ==> (#[trigger] out@[i]).wf() && out@[i].tree() == self.tree()
                        && (out@[i].state_view().data.role == Role::Label || out@[i].state_view().data.role == Role::Image),
                    crate::iterators::filtered_children_of(t, label_decision(), self.id_view(), nn)
                        == crate::table::node_ids(out@),
                decreases fuel,
            {
                if fuel == 0 {
                    assert(crate::iterators::shown_children_seq(t, label_decision(), children.front_view(),
                        children.back_view(), children.done_view(), 0) == Seq::<FullNodeId>::empty());
                    assert(crate::table::node_ids(out@) + Seq::<FullNodeId>::empty() == crate::table::node_ids(out@));
                    break;
                }
                let ghost fv = children.front_view();
                let ghost bv = children.back_view();
                let ghost dv = children.done_view();
                let ghost f0 = fuel as nat;
                fuel = fuel - 1;
                match children.next() {
                    Some(n) => {
                        let ghost before = out@;
                        let ghost rest = crate::iterators::shown_children_seq(t, label_decision(),
                            children.front_view(), children.back_view(), children.done_view(), fuel as nat);
                        assert(label_filter.ensures((&n,), FilterResult::Include));
                        assert(n.state_view().data.role == Role::Label || n.state_view().data.role == Role::Image);
                        out.push(n);
                        assert forall|i: int| 0 <= i < out@.len() implies (#[trigger] out@[i]).wf() && out@[i].tree() == self.tree()
                            && (out@[i].state_view().data.role == Role::Label || out@[i].state_view().data.role == Role::Image) by {
                            if i < before.len() {
                                assert(out@[i] == before[i]);
                            }
                        }
                        assert(crate::table::node_ids(out@) =~= crate::table::node_ids(before).push(n.id_view()));
                        assert(crate::table::node_ids(before) + (seq![n.id_view()] + rest)
                            =~= crate::table::node_ids(out@) + rest);
                    },
                    None => {
                        assert(crate::iterators::shown_children_seq(t, label_decision(), fv, bv, dv, f0)
                            == Seq::<FullNodeId>::empty());
                        assert(crate::table::node_ids(out@) + Seq::<FullNodeId>::empty() == crate::table::node_ids(out@));
                        break;
                    },
                }
            }
        } else {
            let mut i: usize = 0;
            while i < explicit.len()
                invariant
                    i <= explicit@.len(),
                    explicit@ == node_id_vec_value(self.state_view().data.prop(PROP_LABELLED_BY)),
                    out@.map_values(|n: NodeRef<'a>| n.id_view().local)
                        == stored_ids(self.tree(), self.id_view().tree_index, explicit@.take(i as int)),
                    self.wf(),
                    forall|w: int| 0 <= w < out@.len() ==> (#[trigger] out@[w]).wf() && out@[w].tree() == self.tree()
                        && out@[w].id_view().tree_index == self.id_view().tree_index,
                decreases explicit@.len() - i,
            {
                let ghost before = out@;
                assert(explicit@.take(i as int + 1).drop_last() == explicit@.take(i as int));
                match self.tree_state().node_by_id(self.id().with_same_tree(explicit[i])) {
                    Some(n) => {
                        out.push(n);
                        assert(out@.map_values(|n: NodeRef<'a>| n.id_view().local)
                            == before.map_values(|n: NodeRef<'a>| n.id_view().local).push(explicit@[i as int]));
                        assert forall|w: int| 0 <= w < out@.len() implies (#[trigger] out@[w]).wf() && out@[w].tree() == self.tree()
                            && out@[w].id_view().tree_index == self.id_view().tree_index by {
                            if w < before.len() {
                                assert(out@[w] == before[w]);
                            }
                        }
                    },
                    None => {},
                }
                i = i + 1;
            }
        }
        proof {
            if !from_descendants {
                assert(explicit@.take(explicit@.len() as int) == explicit@);
            }
        }
        out
    }
}

/// A node with no name, that names no stored node as its label, and whose
/// label does not come from its descendants.
pub open spec fn unlabelled(node: NodeRef) -> bool {
    let ids = node_id_vec_value(node.state_view().data.prop(PROP_LABELLED_BY));
    &&& string_value(node.state_view().data.prop(PROP_NAME)) is None
    &&& !(ids.len() == 0 && labelled_by_descendants_role(node.state_view().data.role))
    &&& stored_ids(node.tree(), node.id_view().tree_index, ids).len() == 0
}

/// The label of a node, looking at most `depth` labels deep: its name, if
/// it has one; else the labels of the nodes that label it (for labels,
/// their value), joined by spaces, if there are any.
fn label_within(node: &NodeRef, depth: usize) -> (r: Option<String>)
    requires
        node.wf(),
    ensures
        string_value(node.state_view().data.prop(PROP_NAME)) is Some ==> r is Some
            && r.unwrap()@ == string_value(node.state_view().data.prop(PROP_NAME)).unwrap(),
        unlabelled(*node) ==> r is None,
    decreases depth,
{
    match node.data().name() {
        Some(name) => {
            return Some(name.to_string());
        },
        None => {},
    }
    let labels = node.labelled_by();
    proof {
        if unlabelled(*node) {
            assert(labels@.map_values(|n: NodeRef| n.id_view().local).len() == 0);
        }
    }
    let mut joined = String::new();
    let mut any = false;
    let mut i: usize = 0;
    while i < labels.len()
        invariant
            i <= labels@.len(),
            forall|w: int| 0 <= w < labels@.len() ==> (#[trigger] labels@[w]).wf(),
            unlabelled(*node) ==> labels@.len() == 0,
            labels@.len() == 0 ==> !any,
        decreases labels@.len() - i,
    {
        let part: Option<String> = if labels[i].label_comes_from_value() {
            labels[i].value()
        } else if depth > 0 {
            label_within(&labels[i], depth - 1)
        } else {
            None
        };
        match part {
            Some(p) => {
                if any {
                    joined.append(" ");
                }
                joined.append(p.as_str());
                any = true;
            },
            None => {},
        }
        i = i + 1;
    }
    if any {
        Some(joined)
    } else {
        None
    }
}

impl<'a> NodeRef<'a> {
    /// The node's label: its name, if it has one; else the labels of the
    /// nodes that label it (for labels, their value), joined by spaces, if
    /// there are any. Labels of labels are looked up at most as many levels
    /// deep as the tree has nodes.
    pub fn label(&self) -> (r: Option<String>)
        requires
            self.wf(),
        ensures
            string_value(self.state_view().data.prop(PROP_NAME)) is Some ==> r is Some
                && r.unwrap()@ == string_value(self.state_view().data.prop(PROP_NAME)).unwrap(),
            unlabelled(*self) ==> r is None,
    {
        label_within(self, self.tree_state().node_count())
    }
}

} // verus!
