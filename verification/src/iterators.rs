//! Walking the siblings of a node, from either end.

use vstd::prelude::*;

use crate::ids::FullNodeId;
use crate::schema::NodeId;
use crate::filters::{
    decided_by, filter_total, filtered_parent, first_filtered_child, first_shown_in, last_filtered_child, last_shown_in, opt_id,
    shown_ancestor, shown_by, stored_children, FilterResult,
};
use crate::ids::{key_node, node_key, NodeStateView};
use crate::tree::{NodeRef, TreeState};

verus! {

/// The children of a node's parent, as identifiers in the node's tree, or
/// nothing if the node has no stored parent or the parent is a graft node.
pub open spec fn sibling_ids(node: NodeRef) -> Seq<FullNodeId> {
    let p = node.state_view().parent;
    if p is Some && node.tree().nodes_view().contains_key(p.unwrap().0)
        && node.tree().nodes_view()[p.unwrap().0].data.tree_id() is None {
        node.tree().nodes_view()[p.unwrap().0].data.children().map_values(
            |c: NodeId| FullNodeId { local: c, tree_index: node.id_view().tree_index })
    } else {
        Seq::empty()
    }
}

/// The identifiers of the siblings after `node`, in order.
pub open spec fn following_ids(node: NodeRef) -> Seq<FullNodeId> {
    let s = sibling_ids(node);
    let i = node.state_view().parent.unwrap().1;
    if s.len() > 0 && i + 1 < s.len() {
        s.subrange(i + 1, s.len() as int)
    } else {
        Seq::empty()
    }
}

/// The identifiers of the siblings before `node`, nearest first.
pub open spec fn preceding_ids(node: NodeRef) -> Seq<FullNodeId> {
    let s = sibling_ids(node);
    let i = node.state_view().parent.unwrap().1;
    if s.len() > 0 && 0 < i && i <= s.len() {
        s.subrange(0, i as int).reverse()
    } else {
        Seq::empty()
    }
}

/// The siblings after a node, as identifiers; they can be taken from
/// either end.
pub struct FollowingSiblings<'a> {
    back_position: usize,
    done: bool,
    front_position: usize,
    parent: Option<NodeRef<'a>>,
    node_id: FullNodeId,
}

impl<'a> FollowingSiblings<'a> {
    /// The positions are in range of the parent's children.
    pub closed spec fn wf(&self) -> bool {
        !self.done ==> {
            &&& self.parent is Some
            &&& self.front_position <= self.back_position
            &&& self.back_position < self.parent.unwrap().state_view().data.children().len()
            &&& self.parent.unwrap().state_view().data.children().len() <= usize::MAX
        }
    }

    /// The identifiers still to come, front first.
    pub closed spec fn remaining(&self) -> Seq<FullNodeId> {
        if self.done {
            Seq::empty()
        } else {
            self.parent.unwrap().state_view().data.children().subrange(
                self.front_position as int,
                self.back_position + 1,
            ).map_values(|c: NodeId| FullNodeId { local: c, tree_index: self.node_id.tree_index })
        }
    }

    /// The siblings after `node`.
    pub fn new(node: NodeRef<'a>) -> (r: FollowingSiblings<'a>)
        requires
            node.wf(),
        ensures
            r.wf(),
            r.remaining() == following_ids(node),
    {
        let parent_and_index = node.parent_and_index();
        match parent_and_index {
            Some((parent, index)) => {
                let len = parent.data().children().len();
                if parent.is_graft() || len == 0 || index >= len - 1 {
                    let r = FollowingSiblings { back_position: 0, done: true, front_position: 0, parent: Some(parent), node_id: node.id() };
                    assert(r.remaining() =~= following_ids(node));
                    r
                } else {
                    let r = FollowingSiblings {
                        back_position: len - 1,
                        done: false,
                        front_position: index + 1,
                        parent: Some(parent),
                        node_id: node.id(),
                    };
                    assert(r.remaining() =~= following_ids(node));
                    r
                }
            },
            None => {
                let r = FollowingSiblings { back_position: 0, done: true, front_position: 0, parent: None, node_id: node.id() };
                assert(r.remaining() =~= following_ids(node));
                r
            },
        }
    }

    /// How many identifiers are still to come.
    pub fn len(&self) -> (r: usize)
        requires
            self.wf(),
        ensures
            r == self.remaining().len(),
    {
        if self.done {
            0
        } else {
            self.back_position + 1 - self.front_position
        }
    }

    /// The next identifier from the front.
    pub fn next(&mut self) -> (r: Option<FullNodeId>)
        requires
            old(self).wf(),
        ensures
            final(self).wf(),
            old(self).remaining().len() == 0 ==> r is None && final(self).remaining().len() == 0,
            old(self).remaining().len() > 0 ==> {
                &&& r == Some(old(self).remaining()[0])
                &&& final(self).remaining() == old(self).remaining().subrange(1, old(self).remaining().len() as int)
            },
    {
        if self.done {
            return None;
        }
        let ghost rem = self.remaining();
        self.done = self.front_position == self.back_position;
        let parent = self.parent.unwrap();
        let child = parent.data().children()[self.front_position];
        self.front_position = self.front_position + 1;
        assert(self.remaining() =~= rem.subrange(1, rem.len() as int));
        Some(self.node_id.with_same_tree(child))
    }

    /// The next identifier from the back.
    pub fn next_back(&mut self) -> (r: Option<FullNodeId>)
        requires
            old(self).wf(),
        ensures
            final(self).wf(),
            old(self).remaining().len() == 0 ==> r is None && final(self).remaining().len() == 0,
            old(self).remaining().len() > 0 ==> {
                &&& r == Some(old(self).remaining().last())
                &&& final(self).remaining() == old(self).remaining().drop_last()
            },
    {
        if self.done {
            return None;
        }
        let ghost rem = self.remaining();
        self.done = self.back_position == self.front_position;
        let parent = self.parent.unwrap();
        let child = parent.data().children()[self.back_position];
        if !self.done {
            self.back_position = self.back_position - 1;
        }
        assert(self.remaining() =~= rem.drop_last());
        Some(self.node_id.with_same_tree(child))
    }
}

/// The siblings before a node, as identifiers, nearest first; they can be
/// taken from either end.
pub struct PrecedingSiblings<'a> {
    back_position: usize,
    done: bool,
    front_position: usize,
    parent: Option<NodeRef<'a>>,
    node_id: FullNodeId,
}

impl<'a> PrecedingSiblings<'a> {
    /// The positions are in range of the parent's children.
    pub closed spec fn wf(&self) -> bool {
        !self.done ==> {
            &&& self.parent is Some
            &&& self.back_position <= self.front_position
            &&& self.front_position < self.parent.unwrap().state_view().data.children().len()
            &&& self.parent.unwrap().state_view().data.children().len() <= usize::MAX
        }
    }

    /// The identifiers still to come, front (nearest) first.
    pub closed spec fn remaining(&self) -> Seq<FullNodeId> {
        if self.done {
            Seq::empty()
        } else {
            self.parent.unwrap().state_view().data.children().subrange(
                self.back_position as int,
                self.front_position + 1,
            ).reverse().map_values(|c: NodeId| FullNodeId { local: c, tree_index: self.node_id.tree_index })
        }
    }

    /// The siblings before `node`.
    pub fn new(node: NodeRef<'a>) -> (r: PrecedingSiblings<'a>)
        requires
            node.wf(),
        ensures
            r.wf(),
            r.remaining() == preceding_ids(node),
    {
        let parent_and_index = node.parent_and_index();
        match parent_and_index {
            Some((parent, index)) => {
                let len = parent.data().children().len();
                if parent.is_graft() || len == 0 || index == 0 || index > len {
                    let r = PrecedingSiblings { back_position: 0, done: true, front_position: 0, parent: Some(parent), node_id: node.id() };
                    assert(r.remaining() =~= preceding_ids(node));
                    r
                } else {
                    let front = index - 1;
                    let r = PrecedingSiblings {
                        back_position: 0,
                        done: false,
                        front_position: front,
                        parent: Some(parent),
                        node_id: node.id(),
                    };
                    let ghost ch = parent.state_view().data.children();
                    let ghost ti = node.id_view().tree_index;
                    assert(r.remaining() =~= preceding_ids(node)) by {
                        let s = sibling_ids(node);
                        assert(s =~= ch.map_values(|c: NodeId| FullNodeId { local: c, tree_index: ti }));
                        assert(s.subrange(0, index as int).reverse() =~= ch.subrange(0, index as int).reverse().map_values(
                            |c: NodeId| FullNodeId { local: c, tree_index: ti }));
                    }
                    r
                }
            },
            None => {
                let r = PrecedingSiblings { back_position: 0, done: true, front_position: 0, parent: None, node_id: node.id() };
                assert(r.remaining() =~= preceding_ids(node));
                r
            },
        }
    }

    /// How many identifiers are still to come.
    pub fn len(&self) -> (r: usize)
        requires
            self.wf(),
        ensures
            r == self.remaining().len(),
    {
        if self.done {
            0
        } else {
            self.front_position + 1 - self.back_position
        }
    }

    /// The next identifier from the front (the nearest left).
    pub fn next(&mut self) -> (r: Option<FullNodeId>)
        requires
            old(self).wf(),
        ensures
            final(self).wf(),
            old(self).remaining().len() == 0 ==> r is None && final(self).remaining().len() == 0,
            old(self).remaining().len() > 0 ==> {
                &&& r == Some(old(self).remaining()[0])
                &&& final(self).remaining() == old(self).remaining().subrange(1, old(self).remaining().len() as int)
            },
    {
        if self.done {
            return None;
        }
        let ghost rem = self.remaining();
        self.done = self.front_position == self.back_position;
        let parent = self.parent.unwrap();
        let child = parent.data().children()[self.front_position];
        if !self.done {
            self.front_position = self.front_position - 1;
        }
        assert(self.remaining() =~= rem.subrange(1, rem.len() as int));
        Some(self.node_id.with_same_tree(child))
    }

    /// The next identifier from the back (the farthest left).
    pub fn next_back(&mut self) -> (r: Option<FullNodeId>)
        requires
            old(self).wf(),
        ensures
            final(self).wf(),
            old(self).remaining().len() == 0 ==> r is None && final(self).remaining().len() == 0,
            old(self).remaining().len() > 0 ==> {
                &&& r == Some(old(self).remaining().last())
                &&& final(self).remaining() == old(self).remaining().drop_last()
            },
    {
        if self.done {
            return None;
        }
        let ghost rem = self.remaining();
        self.done = self.back_position == self.front_position;
        let parent = self.parent.unwrap();
        let child = parent.data().children()[self.back_position];
        self.back_position = self.back_position + 1;
        assert(self.remaining() =~= rem.drop_last());
        Some(self.node_id.with_same_tree(child))
    }
}

/// The identifiers of the siblings of stored node `id` of `t`, after it
/// in order (`forward`) or before it, nearest first.
pub open spec fn siblings_at(t: TreeState, id: FullNodeId, forward: bool) -> Seq<FullNodeId> {
    let p = t.nodes_view()[node_key(id)].parent;
    let s = if p is Some && t.nodes_view().contains_key(p.unwrap().0) && t.nodes_view()[p.unwrap().0].data.tree_id() is None {
        t.nodes_view()[p.unwrap().0].data.children().map_values(
            |c: NodeId| FullNodeId { local: c, tree_index: id.tree_index })
    } else {
        Seq::empty()
    };
    let i = p.unwrap().1;
    if forward {
        if s.len() > 0 && i + 1 < s.len() {
            s.subrange(i + 1, s.len() as int)
        } else {
            Seq::empty()
        }
    } else {
        if s.len() > 0 && 0 < i && i <= s.len() {
            s.subrange(0, i as int).reverse()
        } else {
            Seq::empty()
        }
    }
}

/// The walk of [`next_filtered_sibling`] (`forward`) or
/// [`previous_filtered_sibling`] through `t` under the decision `g`, from
/// `cur`, going into `cur`'s children first when `consider` holds, for at
/// most `fuel` steps: the first node it reaches that `g` shows.
pub open spec fn sibling_walk(
    t: TreeState,
    g: spec_fn(FullNodeId, NodeStateView) -> FilterResult,
    cur: FullNodeId,
    consider: bool,
    forward: bool,
    fuel: nat,
) -> Option<FullNodeId>
    decreases fuel,
{
    if fuel == 0 {
        None
    } else {
        let kids = stored_children(t, cur);
        if consider && kids.len() > 0 {
            let c = if forward { kids[0] } else { kids.last() };
            let res = g(c, t.nodes_view()[node_key(c)]);
            if res == FilterResult::Include {
                Some(c)
            } else {
                sibling_walk(t, g, c, res == FilterResult::ExcludeNode, forward, (fuel - 1) as nat)
            }
        } else {
            let sibs = siblings_at(t, cur, forward);
            if sibs.len() > 0 && t.nodes_view().contains_key(node_key(sibs[0])) {
                let sb = sibs[0];
                let res = g(sb, t.nodes_view()[node_key(sb)]);
                if res == FilterResult::Include {
                    Some(sb)
                } else {
                    sibling_walk(t, g, sb, if res == FilterResult::ExcludeNode { true } else { consider }, forward,
                        (fuel - 1) as nat)
                }
            } else {
                let p = t.nodes_view()[node_key(cur)].parent;
                if p is None || !t.nodes_view().contains_key(p.unwrap().0) {
                    None
                } else if g(key_node(p.unwrap().0), t.nodes_view()[p.unwrap().0]) != FilterResult::ExcludeNode {
                    None
                } else {
                    sibling_walk(t, g, key_node(p.unwrap().0), false, forward, (fuel - 1) as nat)
                }
            }
        }
    }
}

/// The walk of [`sibling_walk`] from the node `id` of `t`, if there is one,
/// with as many steps as [`next_filtered_sibling`] takes.
pub open spec fn step_from(
    t: TreeState,
    g: spec_fn(FullNodeId, NodeStateView) -> FilterResult,
    id: Option<FullNodeId>,
    forward: bool,
) -> Option<FullNodeId> {
    match id {
        Some(i) => sibling_walk(t, g, i, false, forward, 2 * t.nodes_view().dom().len() + 2),
        None => None,
    }
}

/// The identifiers that a [`FilteredChildren`] walk gives from the front,
/// in `t` under the decision `g`: from `front` on, stepping forward, until
/// the walk is `done` (it is once the front has reached `back`), at most
/// `fuel` of them.
pub open spec fn shown_children_seq(
    t: TreeState,
    g: spec_fn(FullNodeId, NodeStateView) -> FilterResult,
    front: Option<FullNodeId>,
    back: Option<FullNodeId>,
    done: bool,
    fuel: nat,
) -> Seq<FullNodeId>
    decreases fuel,
{
    if fuel == 0 || done || front is None {
        Seq::empty()
    } else {
        let f = front.unwrap();
        seq![f] + shown_children_seq(t, g, step_from(t, g, front, true), back,
            back is None || f == back.unwrap(), (fuel - 1) as nat)
    }
}

/// The children of stored node `id` of `t` that a filter deciding by `g`
/// shows, in order, as [`FilteredChildren`] gives them from the front (at
/// most `fuel` of them).
pub open spec fn filtered_children_of(
    t: TreeState,
    g: spec_fn(FullNodeId, NodeStateView) -> FilterResult,
    id: FullNodeId,
    fuel: nat,
) -> Seq<FullNodeId> {
    let n = t.nodes_view().dom().len();
    let front = crate::filters::first_shown_in(t, stored_children(t, id), g, n);
    let back = crate::filters::last_shown_in(t, stored_children(t, id), g, n);
    shown_children_seq(t, g, front, back, back is None || front is None, fuel)
}

/// What [`next_filtered_sibling`] (`forward`) or
/// [`previous_filtered_sibling`] gives for `node` under the decision `g`.
pub open spec fn walk_from<'a>(
    node: Option<NodeRef<'a>>,
    g: spec_fn(FullNodeId, NodeStateView) -> FilterResult,
    forward: bool,
) -> Option<FullNodeId> {
    match node {
        Some(n) => sibling_walk(n.tree(), g, n.id_view(), false, forward, 2 * n.tree().nodes_view().dom().len() + 2),
        None => None,
    }
}

/// The far end of a filtered sibling walk from stored node `id` under the
/// decision `g`: the last (`last`) or first node that `g` shows below the
/// nearest ancestor that it shows, or nothing without such an ancestor.
pub open spec fn parent_end(
    t: TreeState,
    id: FullNodeId,
    g: spec_fn(FullNodeId, NodeStateView) -> FilterResult,
    last: bool,
) -> Option<FullNodeId> {
    let n = t.nodes_view().dom().len();
    match shown_ancestor(t, id, g, n) {
        Some(p) => if last {
            last_shown_in(t, stored_children(t, p), g, n)
        } else {
            first_shown_in(t, stored_children(t, p), g, n)
        },
        None => None,
    }
}

/// The first node after `node` in order that `filter` shows, at the same
/// level as far as the filter is concerned: following siblings are tried
/// in turn, the children of siblings that the filter leaves out themselves
/// are gone into, and when the siblings run out the walk goes on from the
/// parent if the filter leaves the parent out itself. The walk takes at
/// most twice as many steps as the tree has nodes.
pub fn next_filtered_sibling<'a, F: Fn(&NodeRef<'a>) -> FilterResult>(node: Option<NodeRef<'a>>, filter: &F) -> (r: Option<NodeRef<'a>>)
    requires
        node is Some ==> node.unwrap().wf(),
        filter_total(*filter),
    ensures
        r is Some ==> node is Some && shown_by(*filter, r.unwrap(), node.unwrap()),
        node is None ==> r is None,
        forall|g: spec_fn(FullNodeId, NodeStateView) -> FilterResult| decided_by(*filter, node.unwrap().tree(), g) ==> opt_id(r)
            == walk_from(node, g, true),
{
    let start = match node {
        Some(n) => n,
        None => {
            return None;
        },
    };
    let mut next = node;
    let mut consider_children = false;
    let count = start.tree_state().node_count();
    let mut fuel: u128 = (count as u128) * 2 + 2;
    let ghost t = start.tree();
    loop
        invariant
            next is Some ==> next.unwrap().wf() && next.unwrap().tree() == start.tree(),
            next is Some,
            filter_total(*filter),
            node == Some(start),
            t == start.tree(),
            forall|g: spec_fn(FullNodeId, NodeStateView) -> FilterResult| decided_by(*filter, node.unwrap().tree(), g) ==>
                walk_from(node, g, true) == sibling_walk(t, g, next.unwrap().id_view(), consider_children, true, fuel as nat),
        decreases fuel,
    {
        let current = match next {
            Some(c) => c,
            None => {
                return None;
            },
        };
        if fuel == 0 {
            return None;
        }
        let ghost f0 = fuel as nat;
        let ghost c0 = consider_children;
        let ghost kids = stored_children(t, current.id_view());
        fuel = fuel - 1;
        let first_child = if consider_children {
            let children = current.children();
            assert(children@.map_values(|n: NodeRef<'a>| n.id_view()) == kids);
            if children.len() > 0 {
                assert(children@.map_values(|n: NodeRef<'a>| n.id_view())[0 as int] == children@[0 as int].id_view());
                Some(children[0])
            } else {
                None
            }
        } else {
            None
        };
        assert(first_child is Some ==> c0 && kids.len() > 0 && first_child.unwrap().id_view() == kids[0]
            && first_child.unwrap().wf() && first_child.unwrap().tree() == t);
        assert(first_child is None ==> !(c0 && kids.len() > 0));
        match first_child {
            Some(child) => {
                let result = filter(&child);
                next = Some(child);
                if result == FilterResult::Include {
                    return next;
                }
                consider_children = result == FilterResult::ExcludeNode;
            },
            None => {
                let mut siblings = current.following_sibling_ids();
                assert(siblings.remaining() == siblings_at(t, current.id_view(), true));
                let ghost sibs = siblings.remaining();
                let sibling = match siblings.next() {
                    Some(id) => current.tree_state().node_by_id(id),
                    None => None,
                };
                match sibling {
                    Some(sibling) => {
                        let result = filter(&sibling);
                        next = Some(sibling);
                        if result == FilterResult::Include {
                            return next;
                        }
                        if result == FilterResult::ExcludeNode {
                            consider_children = true;
                        }
                    },
                    None => {
                        let parent = match current.parent() {
                            Some(p) => p,
                            None => {
                                return None;
                            },
                        };
                        next = Some(parent);
                        if filter(&parent) != FilterResult::ExcludeNode {
                            return None;
                        }
                        consider_children = false;
                    },
                }
            },
        }
    }
}

/// The first node before `node` in order that `filter` shows, at the same
/// level as far as the filter is concerned; the mirror image of
/// [`next_filtered_sibling`].
pub fn previous_filtered_sibling<'a, F: Fn(&NodeRef<'a>) -> FilterResult>(node: Option<NodeRef<'a>>, filter: &F) -> (r: Option<NodeRef<'a>>)
    requires
        node is Some ==> node.unwrap().wf(),
        filter_total(*filter),
    ensures
        r is Some ==> node is Some && shown_by(*filter, r.unwrap(), node.unwrap()),
        node is None ==> r is None,
        forall|g: spec_fn(FullNodeId, NodeStateView) -> FilterResult| decided_by(*filter, node.unwrap().tree(), g) ==> opt_id(r)
            == walk_from(node, g, false),
{
    let start = match node {
        Some(n) => n,
        None => {
            return None;
        },
    };
    let mut previous = node;
    let mut consider_children = false;
    let count = start.tree_state().node_count();
    let mut fuel: u128 = (count as u128) * 2 + 2;
    let ghost t = start.tree();
    loop
        invariant
            previous is Some ==> previous.unwrap().wf() && previous.unwrap().tree() == start.tree(),
            previous is Some,
            filter_total(*filter),
            node == Some(start),
            t == start.tree(),
            forall|g: spec_fn(FullNodeId, NodeStateView) -> FilterResult| decided_by(*filter, node.unwrap().tree(), g) ==>
                walk_from(node, g, false) == sibling_walk(t, g, previous.unwrap().id_view(), consider_children, false, fuel as nat),
        decreases fuel,
    {
        let current = match previous {
            Some(c) => c,
            None => {
                return None;
            },
        };
        if fuel == 0 {
            return None;
        }
        let ghost f0 = fuel as nat;
        let ghost c0 = consider_children;
        let ghost kids = stored_children(t, current.id_view());
        fuel = fuel - 1;
        let last_child = if consider_children {
            let children = current.children();
            assert(children@.map_values(|n: NodeRef<'a>| n.id_view()) == kids);
            if children.len() > 0 {
                assert(children@.map_values(|n: NodeRef<'a>| n.id_view())[children@.len() - 1 as int] == children@[children@.len() - 1 as int].id_view());
                Some(children[children.len() - 1])
            } else {
                None
            }
        } else {
            None
        };
        assert(last_child is Some ==> c0 && kids.len() > 0 && last_child.unwrap().id_view() == kids.last()
            && last_child.unwrap().wf() && last_child.unwrap().tree() == t);
        assert(last_child is None ==> !(c0 && kids.len() > 0));
        match last_child {
            Some(child) => {
                let result = filter(&child);
                previous = Some(child);
                if result == FilterResult::Include {
                    return previous;
                }
                consider_children = result == FilterResult::ExcludeNode;
            },
            None => {
                let mut siblings = current.preceding_sibling_ids();
                assert(siblings.remaining() == siblings_at(t, current.id_view(), false));
                let ghost sibs = siblings.remaining();
                let sibling = match siblings.next() {
                    Some(id) => current.tree_state().node_by_id(id),
                    None => None,
                };
                match sibling {
                    Some(sibling) => {
                        let result = filter(&sibling);
                        previous = Some(sibling);
                        if result == FilterResult::Include {
                            return previous;
                        }
                        if result == FilterResult::ExcludeNode {
                            consider_children = true;
                        }
                    },
                    None => {
                        let parent = match current.parent() {
                            Some(p) => p,
                            None => {
                                return None;
                            },
                        };
                        previous = Some(parent);
                        if filter(&parent) != FilterResult::ExcludeNode {
                            return None;
                        }
                        consider_children = false;
                    },
                }
            },
        }
    }
}

/// Whether the two ends of a walk have met: both are there and are the
/// same node, or one of them is missing.
fn ends_met(front: Option<NodeRef>, back: Option<NodeRef>) -> (r: bool)
    ensures
        r == (if front is Some && back is Some { front.unwrap().id_view() == back.unwrap().id_view() } else { true }),
{
    match (front, back) {
        (Some(x), Some(y)) => x.id() == y.id(),
        _ => true,
    }
}

/// A node that `filter` shows.
pub open spec fn shown<'a, F: Fn(&NodeRef<'a>) -> FilterResult>(filter: F, n: NodeRef<'a>) -> bool {
    &&& n.wf()
    &&& filter.ensures((&n,), FilterResult::Include)
}

/// The siblings after a node that a filter shows, taken from either end.
pub struct FollowingFilteredSiblings<'a, F: Fn(&NodeRef<'a>) -> FilterResult> {
    filter: F,
    back: Option<NodeRef<'a>>,
    done: bool,
    front: Option<NodeRef<'a>>,
    tree: Ghost<TreeState>,
}

impl<'a, F: Fn(&NodeRef<'a>) -> FilterResult> FollowingFilteredSiblings<'a, F> {
    /// The filter can be asked about any node, and both ends are nodes it
    /// shows.
    pub closed spec fn wf(&self) -> bool {
        &&& filter_total(self.filter)
        &&& self.front is Some ==> shown(self.filter, self.front.unwrap()) && self.front.unwrap().tree() == self.tree@
        &&& self.back is Some ==> shown(self.filter, self.back.unwrap()) && self.back.unwrap().tree() == self.tree@
    }

    /// The tree state that the walk is in.
    pub closed spec fn tree_view(&self) -> TreeState {
        self.tree@
    }

    /// The filter.
    pub closed spec fn filter_view(&self) -> F {
        self.filter
    }

    /// The identifier of the node at the front, if any.
    pub closed spec fn front_view(&self) -> Option<FullNodeId> {
        opt_id(self.front)
    }

    /// The identifier of the node at the back, if any.
    pub closed spec fn back_view(&self) -> Option<FullNodeId> {
        opt_id(self.back)
    }

    /// Whether the walk is over.
    pub closed spec fn done_view(&self) -> bool {
        self.done
    }

    /// The node at the front, as a node.
    pub closed spec fn front_node(&self) -> Option<NodeRef<'a>> {
        self.front
    }

    /// The node at the back, as a node.
    pub closed spec fn back_node(&self) -> Option<NodeRef<'a>> {
        self.back
    }

    /// The siblings of `node` after it that `filter` shows.
    pub fn new(node: NodeRef<'a>, filter: F) -> (r: Self)
        requires
            node.wf(),
            filter_total(filter),
        ensures
            r.wf(),
            r.filter_view() == filter,
            r.tree_view() == node.tree(),
            r.done_view() == (r.back_view() is None || r.front_view() is None),
            forall|g: spec_fn(FullNodeId, NodeStateView) -> FilterResult| decided_by(filter, node.tree(), g) ==> {
                &&& r.front_view() == walk_from(Some(node), g, true)
                &&& r.back_view() == parent_end(node.tree(), node.id_view(), g, true)
            },
    {
        let front = next_filtered_sibling(Some(node), &filter);
        let back = match filtered_parent(&node, &filter) {
            Some(parent) => last_filtered_child(&parent, &filter),
            None => None,
        };
        let done = back.is_none() || front.is_none();
        FollowingFilteredSiblings { filter, back, done, front, tree: Ghost(node.tree()) }
    }

    /// The next sibling from the front, if any is left.
    pub fn next(&mut self) -> (r: Option<NodeRef<'a>>)
        requires
            old(self).wf(),
        ensures
            final(self).wf(),
            final(self).filter_view() == old(self).filter_view(),
            final(self).tree_view() == old(self).tree_view(),
            r is Some ==> shown(final(self).filter_view(), r.unwrap()) && r.unwrap().tree() == final(self).tree_view(),
            old(self).done_view() ==> r is None && final(self).done_view() && final(self).front_view() == old(self).front_view()
                && final(self).back_view() == old(self).back_view(),
            !old(self).done_view() ==> {
                &&& opt_id(r) == old(self).front_view()
                &&& final(self).done_view() == (old(self).front_view() is Some && old(self).back_view() is Some
                    ==> old(self).front_view() == old(self).back_view())
                &&& final(self).back_view() == old(self).back_view()
                &&& forall|g: spec_fn(FullNodeId, NodeStateView) -> FilterResult| decided_by(old(self).filter_view(), old(self).tree_view(), g)
                    ==> final(self).front_view() == step_from(old(self).tree_view(), g, old(self).front_view(), true)
            },
    {
        if self.done {
            return None;
        }
        self.done = ends_met(self.front, self.back);
        let current = self.front;
        assert(self.front is Some ==> self.front.unwrap().tree() == self.tree@);
        self.front = next_filtered_sibling(self.front, &self.filter);
        proof {
            assert forall|g: spec_fn(FullNodeId, NodeStateView) -> FilterResult| decided_by(self.filter, self.tree@, g)
                implies opt_id(self.front) == step_from(self.tree@, g, opt_id(current), true) by {
                if current is Some {
                    assert(current.unwrap().tree() == self.tree@);
                    assert(decided_by(self.filter, current.unwrap().tree(), g));
                    assert(opt_id(self.front) == walk_from(current, g, true));
                }
            }
        }
        current
    }

    /// The next sibling from the back, if any is left.
    pub fn next_back(&mut self) -> (r: Option<NodeRef<'a>>)
        requires
            old(self).wf(),
        ensures
            final(self).wf(),
            final(self).filter_view() == old(self).filter_view(),
            final(self).tree_view() == old(self).tree_view(),
            r is Some ==> shown(final(self).filter_view(), r.unwrap()) && r.unwrap().tree() == final(self).tree_view(),
            old(self).done_view() ==> r is None && final(self).done_view() && final(self).front_view() == old(self).front_view()
                && final(self).back_view() == old(self).back_view(),
            !old(self).done_view() ==> {
                &&& opt_id(r) == old(self).back_view()
                &&& final(self).done_view() == (old(self).front_view() is Some && old(self).back_view() is Some
                    ==> old(self).front_view() == old(self).back_view())
                &&& final(self).front_view() == old(self).front_view()
                &&& forall|g: spec_fn(FullNodeId, NodeStateView) -> FilterResult| decided_by(old(self).filter_view(), old(self).tree_view(), g)
                    ==> final(self).back_view() == step_from(old(self).tree_view(), g, old(self).back_view(), false)
            },
    {
        if self.done {
            return None;
        }
        self.done = ends_met(self.front, self.back);
        let current = self.back;
        assert(self.back is Some ==> self.back.unwrap().tree() == self.tree@);
        self.back = previous_filtered_sibling(self.back, &self.filter);
        proof {
            assert forall|g: spec_fn(FullNodeId, NodeStateView) -> FilterResult| decided_by(self.filter, self.tree@, g)
                implies opt_id(self.back) == step_from(self.tree@, g, opt_id(current), false) by {
                if current is Some {
                    assert(current.unwrap().tree() == self.tree@);
                    assert(decided_by(self.filter, current.unwrap().tree(), g));
                    assert(opt_id(self.back) == walk_from(current, g, false));
                }
            }
        }
        current
    }
}

/// The siblings before a node that a filter shows, nearest first, taken
/// from either end.
pub struct PrecedingFilteredSiblings<'a, F: Fn(&NodeRef<'a>) -> FilterResult> {
    filter: F,
    back: Option<NodeRef<'a>>,
    done: bool,
    front: Option<NodeRef<'a>>,
    tree: Ghost<TreeState>,
}

impl<'a, F: Fn(&NodeRef<'a>) -> FilterResult> PrecedingFilteredSiblings<'a, F> {
    /// The filter can be asked about any node, and both ends are nodes it
    /// shows.
    pub closed spec fn wf(&self) -> bool {
        &&& filter_total(self.filter)
        &&& self.front is Some ==> shown(self.filter, self.front.unwrap()) && self.front.unwrap().tree() == self.tree@
        &&& self.back is Some ==> shown(self.filter, self.back.unwrap()) && self.back.unwrap().tree() == self.tree@
    }

    /// The tree state that the walk is in.
    pub closed spec fn tree_view(&self) -> TreeState {
        self.tree@
    }

    /// The filter.
    pub closed spec fn filter_view(&self) -> F {
        self.filter
    }

    /// The identifier of the node at the front, if any.
    pub closed spec fn front_view(&self) -> Option<FullNodeId> {
        opt_id(self.front)
    }

    /// The identifier of the node at the back, if any.
    pub closed spec fn back_view(&self) -> Option<FullNodeId> {
        opt_id(self.back)
    }

    /// Whether the walk is over.
    pub closed spec fn done_view(&self) -> bool {
        self.done
    }

    /// The node at the front, as a node.
    pub closed spec fn front_node(&self) -> Option<NodeRef<'a>> {
        self.front
    }

    /// The node at the back, as a node.
    pub closed spec fn back_node(&self) -> Option<NodeRef<'a>> {
        self.back
    }

    /// The siblings of `node` before it that `filter` shows.
    pub fn new(node: NodeRef<'a>, filter: F) -> (r: Self)
        requires
            node.wf(),
            filter_total(filter),
        ensures
            r.wf(),
            r.filter_view() == filter,
            r.tree_view() == node.tree(),
            r.done_view() == (r.back_view() is None || r.front_view() is None),
            forall|g: spec_fn(FullNodeId, NodeStateView) -> FilterResult| decided_by(filter, node.tree(), g) ==> {
                &&& r.front_view() == walk_from(Some(node), g, false)
                &&& r.back_view() == parent_end(node.tree(), node.id_view(), g, false)
            },
    {
        let front = previous_filtered_sibling(Some(node), &filter);
        let back = match filtered_parent(&node, &filter) {
            Some(parent) => first_filtered_child(&parent, &filter),
            None => None,
        };
        let done = back.is_none() || front.is_none();
        PrecedingFilteredSiblings { filter, back, done, front, tree: Ghost(node.tree()) }
    }

    /// The next sibling from the front (the nearest left), if any is left.
    pub fn next(&mut self) -> (r: Option<NodeRef<'a>>)
        requires
            old(self).wf(),
        ensures
            final(self).wf(),
            final(self).filter_view() == old(self).filter_view(),
            final(self).tree_view() == old(self).tree_view(),
            r is Some ==> shown(final(self).filter_view(), r.unwrap()) && r.unwrap().tree() == final(self).tree_view(),
            old(self).done_view() ==> r is None && final(self).done_view() && final(self).front_view() == old(self).front_view()
                && final(self).back_view() == old(self).back_view(),
            !old(self).done_view() ==> {
                &&& opt_id(r) == old(self).front_view()
                &&& final(self).done_view() == (old(self).front_view() is Some && old(self).back_view() is Some
                    ==> old(self).front_view() == old(self).back_view())
                &&& final(self).back_view() == old(self).back_view()
                &&& forall|g: spec_fn(FullNodeId, NodeStateView) -> FilterResult| decided_by(old(self).filter_view(), old(self).tree_view(), g)
                    ==> final(self).front_view() == step_from(old(self).tree_view(), g, old(self).front_view(), false)
            },
    {
        if self.done {
            return None;
        }
        self.done = ends_met(self.front, self.back);
        let current = self.front;
        assert(self.front is Some ==> self.front.unwrap().tree() == self.tree@);
        self.front = previous_filtered_sibling(self.front, &self.filter);
        proof {
            assert forall|g: spec_fn(FullNodeId, NodeStateView) -> FilterResult| decided_by(self.filter, self.tree@, g)
                implies opt_id(self.front) == step_from(self.tree@, g, opt_id(current), false) by {
                if current is Some {
                    assert(current.unwrap().tree() == self.tree@);
                    assert(decided_by(self.filter, current.unwrap().tree(), g));
                    assert(opt_id(self.front) == walk_from(current, g, false));
                }
            }
        }
        current
    }

    /// The next sibling from the back (the farthest left), if any is left.
    pub fn next_back(&mut self) -> (r: Option<NodeRef<'a>>)
        requires
            old(self).wf(),
        ensures
            final(self).wf(),
            final(self).filter_view() == old(self).filter_view(),
            final(self).tree_view() == old(self).tree_view(),
            r is Some ==> shown(final(self).filter_view(), r.unwrap()) && r.unwrap().tree() == final(self).tree_view(),
            old(self).done_view() ==> r is None && final(self).done_view() && final(self).front_view() == old(self).front_view()
                && final(self).back_view() == old(self).back_view(),
            !old(self).done_view() ==> {
                &&& opt_id(r) == old(self).back_view()
                &&& final(self).done_view() == (old(self).front_view() is Some && old(self).back_view() is Some
                    ==> old(self).front_view() == old(self).back_view())
                &&& final(self).front_view() == old(self).front_view()
                &&& forall|g: spec_fn(FullNodeId, NodeStateView) -> FilterResult| decided_by(old(self).filter_view(), old(self).tree_view(), g)
                    ==> final(self).back_view() == step_from(old(self).tree_view(), g, old(self).back_view(), true)
            },
    {
        if self.done {
            return None;
        }
        self.done = ends_met(self.front, self.back);
        let current = self.back;
        assert(self.back is Some ==> self.back.unwrap().tree() == self.tree@);
        self.back = next_filtered_sibling(self.back, &self.filter);
        proof {
            assert forall|g: spec_fn(FullNodeId, NodeStateView) -> FilterResult| decided_by(self.filter, self.tree@, g)
                implies opt_id(self.back) == step_from(self.tree@, g, opt_id(current), true) by {
                if current is Some {
                    assert(current.unwrap().tree() == self.tree@);
                    assert(decided_by(self.filter, current.unwrap().tree(), g));
                    assert(opt_id(self.back) == walk_from(current, g, true));
                }
            }
        }
        current
    }
}

/// The children of a node that a filter shows (going into children that it
/// leaves out themselves), taken from either end.
pub struct FilteredChildren<'a, F: Fn(&NodeRef<'a>) -> FilterResult> {
    filter: F,
    back: Option<NodeRef<'a>>,
    done: bool,
    front: Option<NodeRef<'a>>,
    tree: Ghost<TreeState>,
}

impl<'a, F: Fn(&NodeRef<'a>) -> FilterResult> FilteredChildren<'a, F> {
    /// The filter can be asked about any node, and both ends are nodes it
    /// shows.
    pub closed spec fn wf(&self) -> bool {
        &&& filter_total(self.filter)
        &&& self.front is Some ==> shown(self.filter, self.front.unwrap()) && self.front.unwrap().tree() == self.tree@
        &&& self.back is Some ==> shown(self.filter, self.back.unwrap()) && self.back.unwrap().tree() == self.tree@
    }

    /// The tree state that the walk is in.
    pub closed spec fn tree_view(&self) -> TreeState {
        self.tree@
    }

    /// The filter.
    pub closed spec fn filter_view(&self) -> F {
        self.filter
    }

    /// The identifier of the node at the front, if any.
    pub closed spec fn front_view(&self) -> Option<FullNodeId> {
        opt_id(self.front)
    }

    /// The identifier of the node at the back, if any.
    pub closed spec fn back_view(&self) -> Option<FullNodeId> {
        opt_id(self.back)
    }

    /// Whether the walk is over.
    pub closed spec fn done_view(&self) -> bool {
        self.done
    }

    /// The node at the front, as a node.
    pub closed spec fn front_node(&self) -> Option<NodeRef<'a>> {
        self.front
    }

    /// The node at the back, as a node.
    pub closed spec fn back_node(&self) -> Option<NodeRef<'a>> {
        self.back
    }

    /// The children of `node` that `filter` shows.
    pub fn new(node: NodeRef<'a>, filter: F) -> (r: Self)
        requires
            node.wf(),
            filter_total(filter),
        ensures
            r.wf(),
            r.filter_view() == filter,
            r.tree_view() == node.tree(),
            r.done_view() == (r.back_view() is None || r.front_view() is None),
            forall|g: spec_fn(FullNodeId, NodeStateView) -> FilterResult| decided_by(filter, node.tree(), g) ==> {
                let n = node.tree().nodes_view().dom().len();
                &&& r.front_view() == crate::filters::first_shown_in(node.tree(), stored_children(node.tree(), node.id_view()), g, n)
                &&& r.back_view() == crate::filters::last_shown_in(node.tree(), stored_children(node.tree(), node.id_view()), g, n)
            },
    {
        let front = first_filtered_child(&node, &filter);
        let back = last_filtered_child(&node, &filter);
        let done = back.is_none() || front.is_none();
        FilteredChildren { filter, back, done, front, tree: Ghost(node.tree()) }
    }

    /// The next child from the front, if any is left.
    pub fn next(&mut self) -> (r: Option<NodeRef<'a>>)
        requires
            old(self).wf(),
        ensures
            final(self).wf(),
            final(self).filter_view() == old(self).filter_view(),
            final(self).tree_view() == old(self).tree_view(),
            r is Some ==> shown(final(self).filter_view(), r.unwrap()) && r.unwrap().tree() == final(self).tree_view(),
            old(self).done_view() ==> r is None && final(self).done_view() && final(self).front_view() == old(self).front_view()
                && final(self).back_view() == old(self).back_view(),
            !old(self).done_view() ==> {
                &&& opt_id(r) == old(self).front_view()
                &&& final(self).done_view() == (old(self).front_view() is Some && old(self).back_view() is Some
                    ==> old(self).front_view() == old(self).back_view())
                &&& final(self).back_view() == old(self).back_view()
                &&& forall|g: spec_fn(FullNodeId, NodeStateView) -> FilterResult| decided_by(old(self).filter_view(), old(self).tree_view(), g)
                    ==> final(self).front_view() == step_from(old(self).tree_view(), g, old(self).front_view(), true)
            },
    {
        if self.done {
            return None;
        }
        self.done = ends_met(self.front, self.back);
        let current = self.front;
        assert(self.front is Some ==> self.front.unwrap().tree() == self.tree@);
        self.front = next_filtered_sibling(self.front, &self.filter);
        proof {
            assert forall|g: spec_fn(FullNodeId, NodeStateView) -> FilterResult| decided_by(self.filter, self.tree@, g)
                implies opt_id(self.front) == step_from(self.tree@, g, opt_id(current), true) by {
                if current is Some {
                    assert(current.unwrap().tree() == self.tree@);
                    assert(decided_by(self.filter, current.unwrap().tree(), g));
                    assert(opt_id(self.front) == walk_from(current, g, true));
                }
            }
        }
        current
    }

    /// The next child from the back, if any is left.
    pub fn next_back(&mut self) -> (r: Option<NodeRef<'a>>)
        requires
            old(self).wf(),
        ensures
            final(self).wf(),
            final(self).filter_view() == old(self).filter_view(),
            final(self).tree_view() == old(self).tree_view(),
            r is Some ==> shown(final(self).filter_view(), r.unwrap()) && r.unwrap().tree() == final(self).tree_view(),
            old(self).done_view() ==> r is None && final(self).done_view() && final(self).front_view() == old(self).front_view()
                && final(self).back_view() == old(self).back_view(),
            !old(self).done_view() ==> {
                &&& opt_id(r) == old(self).back_view()
                &&& final(self).done_view() == (old(self).front_view() is Some && old(self).back_view() is Some
                    ==> old(self).front_view() == old(self).back_view())
                &&& final(self).front_view() == old(self).front_view()
                &&& forall|g: spec_fn(FullNodeId, NodeStateView) -> FilterResult| decided_by(old(self).filter_view(), old(self).tree_view(), g)
                    ==> final(self).back_view() == step_from(old(self).tree_view(), g, old(self).back_view(), false)
            },
    {
        if self.done {
            return None;
        }
        self.done = ends_met(self.front, self.back);
        let current = self.back;
        assert(self.back is Some ==> self.back.unwrap().tree() == self.tree@);
        self.back = previous_filtered_sibling(self.back, &self.filter);
        proof {
            assert forall|g: spec_fn(FullNodeId, NodeStateView) -> FilterResult| decided_by(self.filter, self.tree@, g)
                implies opt_id(self.back) == step_from(self.tree@, g, opt_id(current), false) by {
                if current is Some {
                    assert(current.unwrap().tree() == self.tree@);
                    assert(decided_by(self.filter, current.unwrap().tree(), g));
                    assert(opt_id(self.back) == walk_from(current, g, false));
                }
            }
        }
        current
    }
}

impl<'a> NodeRef<'a> {
    /// The siblings after the node that `filter` shows.
    pub fn following_filtered_siblings<F: Fn(&NodeRef<'a>) -> FilterResult>(&self, filter: F) -> (r: FollowingFilteredSiblings<'a, F>)
        requires
            self.wf(),
            filter_total(filter),
        ensures
            r.wf(),
            r.filter_view() == filter,
            r.tree_view() == self.tree(),
    {
        FollowingFilteredSiblings::new(*self, filter)
    }

    /// The siblings before the node that `filter` shows, nearest first.
    pub fn preceding_filtered_siblings<F: Fn(&NodeRef<'a>) -> FilterResult>(&self, filter: F) -> (r: PrecedingFilteredSiblings<'a, F>)
        requires
            self.wf(),
            filter_total(filter),
        ensures
            r.wf(),
            r.filter_view() == filter,
            r.tree_view() == self.tree(),
    {
        PrecedingFilteredSiblings::new(*self, filter)
    }

    /// The children of the node that `filter` shows.
    pub fn filtered_children<F: Fn(&NodeRef<'a>) -> FilterResult>(&self, filter: F) -> (r: FilteredChildren<'a, F>)
        requires
            self.wf(),
            filter_total(filter),
        ensures
            r.wf(),
            r.filter_view() == filter,
            r.tree_view() == self.tree(),
            r.done_view() == (r.back_view() is None || r.front_view() is None),
            forall|g: spec_fn(FullNodeId, NodeStateView) -> FilterResult| decided_by(filter, self.tree(), g) ==> {
                let n = self.tree().nodes_view().dom().len();
                &&& r.front_view() == crate::filters::first_shown_in(self.tree(), stored_children(self.tree(), self.id_view()), g, n)
                &&& r.back_view() == crate::filters::last_shown_in(self.tree(), stored_children(self.tree(), self.id_view()), g, n)
            },
    {
        FilteredChildren::new(*self, filter)
    }
}

} // verus!
