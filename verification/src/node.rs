//! Reading a node of a consumer-side tree: its identity, role and flags,
//! its parent, its children (a graft node's only child is the root of the
//! subtree it grafts in), and its siblings.

use vstd::prelude::*;

use crate::ids::{node_key, key_node, FullNodeId, ParentAndIndex, TreeIndex};
use crate::iterators::{FollowingSiblings, PrecedingSiblings};
use crate::roles::{Action, Flag, Live, Role};
use crate::schema::{
    bool_value, checked_value, live_value, string_value, NodeId, NodeView, PROP_AUTHOR_ID, PROP_CHECKED,
    PROP_CLASS_NAME, PROP_DESCRIPTION, PROP_EXPANDED, PROP_LIVE, PROP_PLACEHOLDER, PROP_ROLE_DESCRIPTION,
    PROP_SELECTED, PROP_VALUE,
};
use crate::tree::{NodeRef, TreeState};

verus! {

/// The children of stored node `id` in `tree`: for a graft node, the root
/// of its subtree if that subtree exists; otherwise its listed children, in
/// its own tree.
pub open spec fn child_ids_of(tree: TreeState, id: FullNodeId) -> Seq<FullNodeId> {
    let data = tree.nodes_view()[node_key(id)].data;
    match data.tree_id() {
        Some(t) => if tree.subtrees_view().contains_key(t.0) {
            seq![key_node(tree.subtrees_view()[t.0].0)]
        } else {
            Seq::empty()
        },
        None => data.children().map_values(|c: NodeId| FullNodeId { local: c, tree_index: id.tree_index }),
    }
}

/// Whether a role is one of the text input roles.
pub open spec fn is_text_input_role(role: Role) -> bool {
    ||| role == Role::TextInput
    ||| role == Role::MultilineTextInput
    ||| role == Role::SearchInput
    ||| role == Role::DateInput
    ||| role == Role::DateTimeInput
    ||| role == Role::WeekInput
    ||| role == Role::MonthInput
    ||| role == Role::TimeInput
    ||| role == Role::EmailInput
    ||| role == Role::NumberInput
    ||| role == Role::PasswordInput
    ||| role == Role::PhoneNumberInput
    ||| role == Role::UrlInput
    ||| role == Role::EditableComboBox
    ||| role == Role::SpinButton
}

impl<'a> NodeRef<'a> {
    /// The node's data, abstractly.
    pub open spec fn data_view(&self) -> NodeView {
        self.state_view().data
    }

    /// The node's role.
    pub fn role(&self) -> (r: Role)
        ensures
            r == self.data_view().role,
    {
        self.data().role()
    }

    /// Whether the node has the focus and the host window has the focus.
    pub fn is_focused(&self) -> (r: bool)
        ensures
            r == (self.tree().host_focused() && self.tree().focus_view() == self.id_view()),
    {
        match self.tree_state().focus_id() {
            Some(f) => f == self.id(),
            None => false,
        }
    }

    /// Whether the node has the focus within its tree.
    pub fn is_focused_in_tree(&self) -> (r: bool)
        ensures
            r == (self.tree().focus_view() == self.id_view()),
    {
        self.tree_state().focus_id_in_tree() == self.id()
    }

    /// Whether the node can take the focus: it supports the focus action or
    /// has the focus already.
    pub fn is_focusable(&self) -> (r: bool)
        ensures
            r == (self.data_view().supports(Action::Focus) || self.tree().focus_view() == self.id_view()),
    {
        self.data().supports_action(Action::Focus) || self.is_focused_in_tree()
    }

    /// Whether the node is the root of the tree.
    pub fn is_root(&self) -> (r: bool)
        ensures
            r == (self.id_view() == self.tree().root_view()),
    {
        self.id() == self.tree_state().root_id()
    }

    /// The identifier of the node's parent, if it has one.
    pub fn parent_id(&self) -> (r: Option<FullNodeId>)
        ensures
            r is Some <==> self.state_view().parent is Some,
            r is Some ==> node_key(r.unwrap()) == self.state_view().parent.unwrap().0,
    {
        match self.parent_link() {
            Some(p) => Some(p.0),
            None => None,
        }
    }

    /// The node's parent, if it is stored, and the node's position among
    /// the parent's children.
    pub fn parent_and_index(&self) -> (r: Option<(NodeRef<'a>, usize)>)
        ensures
            r is Some <==> (self.state_view().parent is Some
                && self.tree().nodes_view().contains_key(self.state_view().parent.unwrap().0)),
            r is Some ==> {
                &&& node_key(r.unwrap().0.id_view()) == self.state_view().parent.unwrap().0
                &&& r.unwrap().1 == self.state_view().parent.unwrap().1
                &&& r.unwrap().0.tree() == self.tree()
                &&& r.unwrap().0.wf()
            },
    {
        match self.parent_link() {
            Some(p) => match self.tree_state().node_by_id(p.0) {
                Some(parent) => Some((parent, p.1)),
                None => None,
            },
            None => None,
        }
    }

    /// Whether the node grafts in a subtree.
    pub fn is_graft(&self) -> (r: bool)
        ensures
            r == (self.data_view().tree_id() is Some),
    {
        self.data().tree_id().is_some()
    }

    /// Whether the node is hidden.
    pub fn is_hidden(&self) -> (r: bool)
        ensures
            r == self.data_view().has_flag(Flag::Hidden),
    {
        self.data().is_hidden()
    }

    /// Whether the node is disabled.
    pub fn is_disabled(&self) -> (r: bool)
        ensures
            r == self.data_view().has_flag(Flag::Disabled),
    {
        self.data().is_disabled()
    }

    /// Whether the node is a text input of some kind.
    pub fn is_text_input(&self) -> (r: bool)
        ensures
            r == is_text_input_role(self.data_view().role),
    {
        match self.role() {
            Role::TextInput | Role::MultilineTextInput | Role::SearchInput | Role::DateInput
            | Role::DateTimeInput | Role::WeekInput | Role::MonthInput | Role::TimeInput
            | Role::EmailInput | Role::NumberInput | Role::PasswordInput | Role::PhoneNumberInput
            | Role::UrlInput | Role::EditableComboBox | Role::SpinButton => true,
            _ => false,
        }
    }

    /// Whether the node is a multi-line text input.
    pub fn is_multiline(&self) -> (r: bool)
        ensures
            r == (self.data_view().role == Role::MultilineTextInput),
    {
        self.role() == Role::MultilineTextInput
    }

    /// Whether the node supports the default action, which typically means a click.
    pub fn is_clickable(&self) -> (r: bool)
        ensures
            r == self.data_view().supports(Action::Default),
    {
        self.data().supports_action(Action::Default)
    }

    /// Whether the node supports the increment action.
    pub fn supports_increment(&self) -> (r: bool)
        ensures
            r == self.data_view().supports(Action::Increment),
    {
        self.data().supports_action(Action::Increment)
    }

    /// Whether the node supports the decrement action.
    pub fn supports_decrement(&self) -> (r: bool)
        ensures
            r == self.data_view().supports(Action::Decrement),
    {
        self.data().supports_action(Action::Decrement)
    }

    /// Whether the node's label is its value rather than its name.
    pub fn label_comes_from_value(&self) -> (r: bool)
        ensures
            r == (self.data_view().role == Role::Label),
    {
        self.role() == Role::Label
    }

    /// The identifiers of the node's children.
    pub fn child_ids(&self) -> (r: Vec<FullNodeId>)
        requires
            self.wf(),
        ensures
            r@ == child_ids_of(self.tree(), self.id_view()),
    {
        let data = self.data();
        match data.tree_id() {
            Some(t) => {
                let mut v: Vec<FullNodeId> = Vec::new();
                match self.tree_state().subtree_root(t) {
                    Some(root) => {
                        v.push(root);
                        proof { crate::ids::lemma_key_roundtrip(root); }
                    },
                    None => {},
                }
                assert(v@ =~= child_ids_of(self.tree(), self.id_view()));
                v
            },
            None => {
                let children = data.children();
                let mut v: Vec<FullNodeId> = Vec::new();
                let mut i: usize = 0;
                while i < children.len()
                    invariant
                        i <= children@.len(),
                        v@ =~= children@.subrange(0, i as int).map_values(
                            |c: NodeId| FullNodeId { local: c, tree_index: self.id_view().tree_index }),
                    decreases children@.len() - i,
                {
                    v.push(self.id().with_same_tree(children[i]));
                    i = i + 1;
                    assert(v@ =~= children@.subrange(0, i as int).map_values(
                        |c: NodeId| FullNodeId { local: c, tree_index: self.id_view().tree_index }));
                }
                assert(children@.subrange(0, children@.len() as int) =~= children@);
                v
            },
        }
    }

    /// The children of the node that are stored, in order.
    pub fn children(&self) -> (r: Vec<NodeRef<'a>>)
        requires
            self.wf(),
        ensures
            r@.map_values(|n: NodeRef<'a>| n.id_view()) == stored_nodes(self.tree(), child_ids_of(self.tree(), self.id_view())),
            r@.len() <= child_ids_of(self.tree(), self.id_view()).len(),
            forall|i: int| 0 <= i < r@.len() ==> #[trigger] r@[i].tree() == self.tree() && r@[i].wf()
                && child_ids_of(self.tree(), self.id_view()).contains(r@[i].id_view()),
            forall|i: int| 0 <= i < child_ids_of(self.tree(), self.id_view()).len()
                && self.tree().nodes_view().contains_key(node_key(#[trigger] child_ids_of(self.tree(), self.id_view())[i]))
                ==> exists|j: int| 0 <= j < r@.len() && r@[j].id_view() == child_ids_of(self.tree(), self.id_view())[i],
    {
        let ids = self.child_ids();
        let mut out: Vec<NodeRef<'a>> = Vec::new();
        let mut i: usize = 0;
        while i < ids.len()
            invariant
                i <= ids@.len(),
                ids@ == child_ids_of(self.tree(), self.id_view()),
                out@.len() <= i,
                out@.map_values(|n: NodeRef<'a>| n.id_view()) == stored_nodes(self.tree(), ids@.take(i as int)),
                forall|w: int| 0 <= w < out@.len() ==> #[trigger] out@[w].tree() == self.tree() && out@[w].wf()
                    && ids@.contains(out@[w].id_view()),
                forall|w: int| 0 <= w < i && self.tree().nodes_view().contains_key(node_key(#[trigger] ids@[w]))
                    ==> exists|j: int| 0 <= j < out@.len() && out@[j].id_view() == ids@[w],
            decreases ids@.len() - i,
        {
            let ghost out0 = out@;
            assert(ids@.take(i as int + 1).drop_last() == ids@.take(i as int));
            match self.tree_state().node_by_id(ids[i]) {
                Some(n) => {
                    out.push(n);
                    assert(out@[out@.len() - 1].id_view() == ids@[i as int]);
                    assert(out@.map_values(|n: NodeRef<'a>| n.id_view())
                        == out0.map_values(|n: NodeRef<'a>| n.id_view()).push(ids@[i as int]));
                },
                None => {},
            }
            assert forall|w: int| 0 <= w < i + 1 && self.tree().nodes_view().contains_key(node_key(#[trigger] ids@[w]))
                implies exists|j: int| 0 <= j < out@.len() && out@[j].id_view() == ids@[w] by {
                if w < i {
                    let j = choose|j: int| 0 <= j < out0.len() && out0[j].id_view() == ids@[w];
                    assert(out@[j] == out0[j]);
                } else {
                    assert(out@[out@.len() - 1].id_view() == ids@[w]);
                }
            }
            i = i + 1;
        }
        assert(ids@.take(ids@.len() as int) == ids@);
        out
    }

    /// The identifiers of the siblings after the node, in order.
    pub fn following_sibling_ids(&self) -> (r: FollowingSiblings<'a>)
        requires
            self.wf(),
        ensures
            r.wf(),
            r.remaining() == crate::iterators::following_ids(*self),
    {
        FollowingSiblings::new(*self)
    }

    /// The identifiers of the siblings before the node, nearest first.
    pub fn preceding_sibling_ids(&self) -> (r: PrecedingSiblings<'a>)
        requires
            self.wf(),
        ensures
            r.wf(),
            r.remaining() == crate::iterators::preceding_ids(*self),
    {
        PrecedingSiblings::new(*self)
    }
}

/// Of the identifiers `ids`, in order, those of nodes stored in `tree`.
pub open spec fn stored_nodes(tree: TreeState, ids: Seq<FullNodeId>) -> Seq<FullNodeId>
    decreases ids.len(),
{
    if ids.len() == 0 {
        Seq::empty()
    } else {
        let rest = stored_nodes(tree, ids.drop_last());
        if tree.nodes_view().contains_key(node_key(ids.last())) {
            rest.push(ids.last())
        } else {
            rest
        }
    }
}

impl<'a> NodeRef<'a> {
    /// The nodes with the identifiers `ids` that are stored, in order.
    fn stored_nodes_of(&self, ids: &Vec<FullNodeId>) -> (r: Vec<NodeRef<'a>>)
        requires
            self.wf(),
        ensures
            r@.map_values(|n: NodeRef<'a>| n.id_view()) == stored_nodes(self.tree(), ids@),
            forall|i: int| 0 <= i < r@.len() ==> (#[trigger] r@[i]).wf() && r@[i].tree() == self.tree(),
    {
        let mut out: Vec<NodeRef<'a>> = Vec::new();
        let mut i: usize = 0;
        while i < ids.len()
            invariant
                self.wf(),
                i <= ids@.len(),
                out@.map_values(|n: NodeRef<'a>| n.id_view()) == stored_nodes(self.tree(), ids@.take(i as int)),
                forall|w: int| 0 <= w < out@.len() ==> (#[trigger] out@[w]).wf() && out@[w].tree() == self.tree(),
            decreases ids@.len() - i,
        {
            let ghost before = out@;
            assert(ids@.take(i as int + 1).drop_last() == ids@.take(i as int));
            match self.tree_state().node_by_id(ids[i]) {
                Some(n) => {
                    out.push(n);
                    assert(out@.map_values(|n: NodeRef<'a>| n.id_view())
                        == before.map_values(|n: NodeRef<'a>| n.id_view()).push(ids@[i as int]));
                },
                None => {},
            }
            i = i + 1;
        }
        assert(ids@.take(ids@.len() as int) == ids@);
        out
    }

    /// The stored siblings after the node, in order.
    pub fn following_siblings(&self) -> (r: Vec<NodeRef<'a>>)
        requires
            self.wf(),
        ensures
            r@.map_values(|n: NodeRef<'a>| n.id_view()) == stored_nodes(self.tree(), crate::iterators::following_ids(*self)),
            forall|i: int| 0 <= i < r@.len() ==> (#[trigger] r@[i]).wf() && r@[i].tree() == self.tree(),
    {
        let mut it = self.following_sibling_ids();
        let ghost all = it.remaining();
        let mut ids: Vec<FullNodeId> = Vec::new();
        loop
            invariant
                it.wf(),
                ids@ + it.remaining() == all,
            ensures
                ids@ == all,
            decreases it.remaining().len(),
        {
            match it.next() {
                Some(id) => {
                    ids.push(id);
                },
                None => {
                    break;
                },
            }
        }
        self.stored_nodes_of(&ids)
    }

    /// The stored siblings before the node, nearest first.
    pub fn preceding_siblings(&self) -> (r: Vec<NodeRef<'a>>)
        requires
            self.wf(),
        ensures
            r@.map_values(|n: NodeRef<'a>| n.id_view()) == stored_nodes(self.tree(), crate::iterators::preceding_ids(*self)),
            forall|i: int| 0 <= i < r@.len() ==> (#[trigger] r@[i]).wf() && r@[i].tree() == self.tree(),
    {
        let mut it = self.preceding_sibling_ids();
        let ghost all = it.remaining();
        let mut ids: Vec<FullNodeId> = Vec::new();
        loop
            invariant
                it.wf(),
                ids@ + it.remaining() == all,
            ensures
                ids@ == all,
            decreases it.remaining().len(),
        {
            match it.next() {
                Some(id) => {
                    ids.push(id);
                },
                None => {
                    break;
                },
            }
        }
        self.stored_nodes_of(&ids)
    }
}

/// Whether stored node `k` is `anc` or lies below it, following at most
/// `fuel` parent links up.
pub open spec fn descends_from(tree: TreeState, k: (u64, u32), anc: (u64, u32), fuel: nat) -> bool
    decreases fuel,
{
    if k == anc {
        true
    } else if fuel == 0 || !tree.nodes_view().contains_key(k) {
        false
    } else {
        let p = tree.nodes_view()[k].parent;
        p is Some && tree.nodes_view().contains_key(p.unwrap().0)
            && descends_from(tree, p.unwrap().0, anc, (fuel - 1) as nat)
    }
}

/// The positions among their parents' children of the nodes on the way
/// from the node with key `anc` down to the node with key `k`, following at
/// most `fuel` parent links up from `k`.
pub open spec fn index_path_to(tree: TreeState, k: (u64, u32), anc: (u64, u32), fuel: nat) -> Seq<usize>
    decreases fuel,
{
    if k == anc || fuel == 0 || !tree.nodes_view().contains_key(k) {
        Seq::empty()
    } else {
        let p = tree.nodes_view()[k].parent;
        if p is Some && tree.nodes_view().contains_key(p.unwrap().0) {
            index_path_to(tree, p.unwrap().0, anc, (fuel - 1) as nat).push(p.unwrap().1)
        } else {
            Seq::empty()
        }
    }
}

impl<'a> NodeRef<'a> {
    /// Whether the node is `ancestor` or lies below it; the walk up follows
    /// at most as many parent links as the tree has nodes.
    pub fn is_descendant_of(&self, ancestor: &NodeRef) -> (r: bool)
        requires
            self.wf(),
        ensures
            r == descends_from(self.tree(), node_key(self.id_view()), node_key(ancestor.id_view()),
                self.tree().nodes_view().dom().len()),
    {
        let target = ancestor.id();
        let mut current = *self;
        let mut fuel: usize = self.tree_state().node_count();
        let ghost goal = descends_from(self.tree(), node_key(self.id_view()), node_key(ancestor.id_view()),
            self.tree().nodes_view().dom().len());
        loop
            invariant
                current.wf(),
                current.tree() == self.tree(),
                target == ancestor.id_view(),
                goal == descends_from(self.tree(), node_key(current.id_view()), node_key(target), fuel as nat),
                goal == descends_from(self.tree(), node_key(self.id_view()), node_key(ancestor.id_view()),
                    self.tree().nodes_view().dom().len()),
            decreases fuel,
        {
            if current.id() == target {
                return true;
            }
            if fuel == 0 {
                return false;
            }
            match current.parent() {
                Some(parent) => {
                    fuel = fuel - 1;
                    current = parent;
                },
                None => {
                    return false;
                },
            }
        }
    }

    /// The positions among their parents' children of the nodes on the way
    /// down from `ancestor_id` to this node; exact whenever the node lies
    /// below `ancestor_id` (or is it), following at most as many parent
    /// links as the tree has nodes.
    pub fn relative_index_path(&self, ancestor_id: FullNodeId) -> (r: Vec<usize>)
        requires
            self.wf(),
        ensures
            descends_from(self.tree(), node_key(self.id_view()), node_key(ancestor_id), self.tree().nodes_view().dom().len())
                ==> r@ == index_path_to(self.tree(), node_key(self.id_view()), node_key(ancestor_id),
                    self.tree().nodes_view().dom().len()),
    {
        let ghost n = self.tree().nodes_view().dom().len();
        let ghost tree = self.tree();
        let ghost goal = index_path_to(tree, node_key(self.id_view()), node_key(ancestor_id), n);
        let mut reversed: Vec<usize> = Vec::new();
        let mut current = *self;
        let mut fuel: usize = self.tree_state().node_count();
        loop
            invariant
                current.wf(),
                current.tree() == tree,
                tree == self.tree(),
                n == tree.nodes_view().dom().len(),
                goal == index_path_to(tree, node_key(self.id_view()), node_key(ancestor_id), n),
                descends_from(tree, node_key(self.id_view()), node_key(ancestor_id), n) ==> {
                    &&& descends_from(tree, node_key(current.id_view()), node_key(ancestor_id), fuel as nat)
                    &&& goal == index_path_to(tree, node_key(current.id_view()), node_key(ancestor_id), fuel as nat)
                        + reversed@.reverse()
                },
            ensures
                descends_from(tree, node_key(self.id_view()), node_key(ancestor_id), n) ==> goal == reversed@.reverse(),
            decreases fuel,
        {
            if current.id() == ancestor_id {
                proof {
                    if descends_from(tree, node_key(self.id_view()), node_key(ancestor_id), n) {
                        assert(goal == Seq::<usize>::empty() + reversed@.reverse());
                    }
                }
                break;
            }
            proof {
                assert(node_key(current.id_view()) != node_key(ancestor_id)) by {
                    crate::ids::lemma_key_roundtrip(current.id_view());
                    crate::ids::lemma_key_roundtrip(ancestor_id);
                }
            }
            if fuel == 0 {
                break;
            }
            match current.parent_and_index() {
                Some((parent, index)) => {
                    proof {
                        let k = node_key(current.id_view());
                        if descends_from(tree, node_key(self.id_view()), node_key(ancestor_id), n) {
                            assert(k != node_key(ancestor_id)) by {
                                if k == node_key(ancestor_id) {
                                    assert(current.id_view() == ancestor_id);
                                }
                            }
                            assert(reversed@.push(index).reverse() == seq![index] + reversed@.reverse());
                            assert(index_path_to(tree, k, node_key(ancestor_id), fuel as nat)
                                == index_path_to(tree, node_key(parent.id_view()), node_key(ancestor_id), (fuel - 1) as nat).push(index));
                            assert(index_path_to(tree, node_key(parent.id_view()), node_key(ancestor_id), (fuel - 1) as nat).push(index)
                                + reversed@.reverse()
                                == index_path_to(tree, node_key(parent.id_view()), node_key(ancestor_id), (fuel - 1) as nat)
                                + (seq![index] + reversed@.reverse()));
                        }
                    }
                    reversed.push(index);
                    current = parent;
                    fuel = fuel - 1;
                },
                None => {
                    break;
                },
            }
        }
        let mut result: Vec<usize> = Vec::new();
        let mut i: usize = reversed.len();
        while i > 0
            invariant
                i <= reversed@.len(),
                result@ == reversed@.subrange(i as int, reversed@.len() as int).reverse(),
            decreases i,
        {
            i = i - 1;
            proof {
                assert(reversed@.subrange(i as int, reversed@.len() as int).reverse()
                    == reversed@.subrange(i as int + 1, reversed@.len() as int).reverse().push(reversed@[i as int]));
            }
            result.push(reversed[i]);
        }
        proof {
            assert(reversed@.subrange(0, reversed@.len() as int) == reversed@);
        }
        result
    }

    /// The positions among their parents' children of the nodes on the way
    /// down from the root of the tree to this node.
    pub fn index_path(&self) -> (r: Vec<usize>)
        requires
            self.wf(),
        ensures
            descends_from(self.tree(), node_key(self.id_view()), node_key(self.tree().root_view()), self.tree().nodes_view().dom().len())
                ==> r@ == index_path_to(self.tree(), node_key(self.id_view()), node_key(self.tree().root_view()),
                    self.tree().nodes_view().dom().len()),
    {
        self.relative_index_path(self.tree_state().root_id())
    }

    /// The node reached by going to the first child again and again until
    /// a node has none, if the node has a child; at most as many steps as
    /// the tree has nodes.
    pub fn deepest_first_child(&self) -> (r: Option<NodeRef<'a>>)
        requires
            self.wf(),
        ensures
            r is Some ==> r.unwrap().wf() && r.unwrap().tree() == self.tree(),
            r is None <==> !self.has_stored_child(),
    {
        let children = self.children();
        if children.len() == 0 {
            proof {
                if self.has_stored_child() {
                    let i = choose|i: int| 0 <= i < child_ids_of(self.tree(), self.id_view()).len()
                        && self.tree().nodes_view().contains_key(node_key(#[trigger] child_ids_of(self.tree(), self.id_view())[i]));
                    assert(exists|j: int| 0 <= j < children@.len() && children@[j].id_view() == child_ids_of(self.tree(), self.id_view())[i]);
                }
            }
            return None;
        }
        let mut deepest = children[0];
        proof {
            assert(children@[0].tree() == self.tree());
            assert(child_ids_of(self.tree(), self.id_view()).contains(deepest.id_view()));
            let w = choose|w: int| 0 <= w < child_ids_of(self.tree(), self.id_view()).len()
                && child_ids_of(self.tree(), self.id_view())[w] == deepest.id_view();
            assert(self.tree().nodes_view().contains_key(node_key(child_ids_of(self.tree(), self.id_view())[w])));
        }
        let mut fuel: usize = self.tree_state().node_count();
        loop
            invariant
                deepest.wf(),
                deepest.tree() == self.tree(),
                self.has_stored_child(),
            decreases fuel,
        {
            if fuel == 0 {
                return Some(deepest);
            }
            fuel = fuel - 1;
            let next = deepest.children();
            if next.len() == 0 {
                return Some(deepest);
            }
            deepest = next[0];
        }
    }

    /// The node reached by going to the last child again and again until
    /// a node has none, if the node has a child; at most as many steps as
    /// the tree has nodes.
    pub fn deepest_last_child(&self) -> (r: Option<NodeRef<'a>>)
        requires
            self.wf(),
        ensures
            r is Some ==> r.unwrap().wf() && r.unwrap().tree() == self.tree(),
            r is None <==> !self.has_stored_child(),
    {
        let children = self.children();
        if children.len() == 0 {
            proof {
                if self.has_stored_child() {
                    let i = choose|i: int| 0 <= i < child_ids_of(self.tree(), self.id_view()).len()
                        && self.tree().nodes_view().contains_key(node_key(#[trigger] child_ids_of(self.tree(), self.id_view())[i]));
                    assert(exists|j: int| 0 <= j < children@.len() && children@[j].id_view() == child_ids_of(self.tree(), self.id_view())[i]);
                }
            }
            return None;
        }
        let mut deepest = children[children.len() - 1];
        proof {
            assert(children@[children@.len() - 1].tree() == self.tree());
            assert(child_ids_of(self.tree(), self.id_view()).contains(deepest.id_view()));
            let w = choose|w: int| 0 <= w < child_ids_of(self.tree(), self.id_view()).len()
                && child_ids_of(self.tree(), self.id_view())[w] == deepest.id_view();
            assert(self.tree().nodes_view().contains_key(node_key(child_ids_of(self.tree(), self.id_view())[w])));
        }
        let mut fuel: usize = self.tree_state().node_count();
        loop
            invariant
                deepest.wf(),
                deepest.tree() == self.tree(),
                self.has_stored_child(),
            decreases fuel,
        {
            if fuel == 0 {
                return Some(deepest);
            }
            fuel = fuel - 1;
            let next = deepest.children();
            if next.len() == 0 {
                return Some(deepest);
            }
            deepest = next[next.len() - 1];
        }
    }

    /// Whether some child of the node is stored.
    pub open spec fn has_stored_child(&self) -> bool {
        exists|i: int| 0 <= i < child_ids_of(self.tree(), self.id_view()).len()
            && self.tree().nodes_view().contains_key(node_key(#[trigger] child_ids_of(self.tree(), self.id_view())[i]))
    }
}

/// Roles for which a read-only state is meaningful.
pub open spec fn read_only_supported_role(role: Role) -> bool {
    ||| is_text_input_role(role)
    ||| role == Role::CheckBox
    ||| role == Role::ColorWell
    ||| role == Role::ComboBox
    ||| role == Role::Grid
    ||| role == Role::ListBox
    ||| role == Role::MenuItemCheckBox
    ||| role == Role::MenuItemRadio
    ||| role == Role::MenuListPopup
    ||| role == Role::RadioButton
    ||| role == Role::RadioGroup
    ||| role == Role::Slider
    ||| role == Role::Switch
    ||| role == Role::TreeGrid
}

/// Roles that are read-only unless they say otherwise.
pub open spec fn read_only_by_default_role(role: Role) -> bool {
    ||| role == Role::Article
    ||| role == Role::Definition
    ||| role == Role::DescriptionList
    ||| role == Role::DescriptionListTerm
    ||| role == Role::Directory
    ||| role == Role::Document
    ||| role == Role::GraphicsDocument
    ||| role == Role::Image
    ||| role == Role::List
    ||| role == Role::ListItem
    ||| role == Role::PdfRoot
    ||| role == Role::ProgressIndicator
    ||| role == Role::RootWebArea
    ||| role == Role::Term
    ||| role == Role::Timer
    ||| role == Role::Toolbar
    ||| role == Role::Tooltip
}

/// The stored node `d` parent links above stored node `k`, if the links
/// go that far through stored nodes.
pub open spec fn ancestor_at(tree: TreeState, k: (u64, u32), d: nat) -> Option<(u64, u32)>
    decreases d,
{
    if !tree.nodes_view().contains_key(k) {
        None
    } else if d == 0 {
        Some(k)
    } else {
        let p = tree.nodes_view()[k].parent;
        if p is Some && tree.nodes_view().contains_key(p.unwrap().0) {
            ancestor_at(tree, p.unwrap().0, (d - 1) as nat)
        } else {
            None
        }
    }
}

/// The node's own live setting, if any.
pub open spec fn own_live(tree: TreeState, k: (u64, u32)) -> Option<Live> {
    live_value(tree.nodes_view()[k].data.prop(PROP_LIVE))
}

/// With enough parent links to follow, the live setting of a node is that
/// of the nearest ancestor that has one.
proof fn lemma_live_from_ancestor(tree: TreeState, k: (u64, u32), d: nat, fuel: nat)
    requires
        d <= fuel,
        ancestor_at(tree, k, d) is Some,
        own_live(tree, ancestor_at(tree, k, d).unwrap()) is Some,
        forall|i: nat| i < d ==> #[trigger] own_live(tree, ancestor_at(tree, k, i).unwrap()) is None,
    ensures
        live_of(tree, k, fuel) == own_live(tree, ancestor_at(tree, k, d).unwrap()).unwrap(),
    decreases d,
{
    if d > 0 {
        assert(ancestor_at(tree, k, 0) == Some(k));
        assert(own_live(tree, ancestor_at(tree, k, 0).unwrap()) is None);
        let p = tree.nodes_view()[k].parent.unwrap().0;
        assert forall|i: nat| i < (d - 1) as nat implies #[trigger] own_live(tree, ancestor_at(tree, p, i).unwrap()) is None by {
            assert(ancestor_at(tree, k, i + 1) == ancestor_at(tree, p, i));
            assert(own_live(tree, ancestor_at(tree, k, (i + 1) as nat).unwrap()) is None);
        }
        lemma_live_from_ancestor(tree, p, (d - 1) as nat, (fuel - 1) as nat);
    }
}

/// A node's own live setting wins; a node with none and no stored parent
/// is off.
pub proof fn law_live_own_or_off(node: NodeRef)
    requires
        node.wf(),
    ensures
        own_live(node.tree(), node_key(node.id_view())) is Some ==>
            live_of(node.tree(), node_key(node.id_view()), node.tree().nodes_view().dom().len())
                == own_live(node.tree(), node_key(node.id_view())).unwrap(),
        own_live(node.tree(), node_key(node.id_view())) is None && (node.state_view().parent is None
            || !node.tree().nodes_view().contains_key(node.state_view().parent.unwrap().0)) ==>
            live_of(node.tree(), node_key(node.id_view()), node.tree().nodes_view().dom().len()) == Live::Off,
{
}

/// A node below a live region reports that region's setting: when the
/// node and the ancestors between it and the ancestor `d` links up set no
/// live setting of their own and that ancestor does, the node's live
/// setting (what [`NodeRef::live`] gives) is the ancestor's, at any depth
/// up to the number of nodes in the tree.
pub proof fn law_live_inherited_from_ancestor(node: NodeRef, d: nat)
    requires
        node.wf(),
        d <= node.tree().nodes_view().dom().len(),
        ancestor_at(node.tree(), node_key(node.id_view()), d) is Some,
        own_live(node.tree(), ancestor_at(node.tree(), node_key(node.id_view()), d).unwrap()) is Some,
        forall|i: nat| i < d ==> #[trigger] own_live(node.tree(), ancestor_at(node.tree(), node_key(node.id_view()), i).unwrap()) is None,
    ensures
        live_of(node.tree(), node_key(node.id_view()), node.tree().nodes_view().dom().len())
            == own_live(node.tree(), ancestor_at(node.tree(), node_key(node.id_view()), d).unwrap()).unwrap(),
{
    lemma_live_from_ancestor(node.tree(), node_key(node.id_view()), d, node.tree().nodes_view().dom().len());
}

/// The live setting of stored node `k`: its own, else its stored parent's,
/// following at most `fuel` parent links, else off.
pub open spec fn live_of(tree: TreeState, k: (u64, u32), fuel: nat) -> Live
    decreases fuel,
{
    let own = live_value(tree.nodes_view()[k].data.prop(PROP_LIVE));
    if own is Some {
        own.unwrap()
    } else {
        let p = tree.nodes_view()[k].parent;
        if fuel > 0 && p is Some && tree.nodes_view().contains_key(p.unwrap().0) {
            live_of(tree, p.unwrap().0, (fuel - 1) as nat)
        } else {
            Live::Off
        }
    }
}

impl<'a> NodeRef<'a> {
    /// Whether the node has a checked state that can be toggled.
    pub fn supports_toggle(&self) -> (r: bool)
        ensures
            r == (checked_value(self.data_view().prop(PROP_CHECKED)) is Some),
    {
        self.data().checked().is_some()
    }

    /// Whether the node can be expanded and collapsed.
    pub fn supports_expand_collapse(&self) -> (r: bool)
        ensures
            r == (bool_value(self.data_view().prop(PROP_EXPANDED)) is Some),
    {
        self.data().is_expanded().is_some()
    }

    /// The node's selected state, if it has one.
    pub fn is_selected(&self) -> (r: Option<bool>)
        ensures
            r == bool_value(self.data_view().prop(PROP_SELECTED)),
    {
        self.data().is_selected()
    }

    /// Whether activating the node does something without keeping state:
    /// it is clickable, not a text input, document or terminal, and has no
    /// checked, expanded or selected state.
    pub fn is_invocable(&self) -> (r: bool)
        ensures
            r == (self.data_view().supports(Action::Default)
                && !is_text_input_role(self.data_view().role)
                && self.data_view().role != Role::Document
                && self.data_view().role != Role::Terminal
                && checked_value(self.data_view().prop(PROP_CHECKED)) is None
                && bool_value(self.data_view().prop(PROP_EXPANDED)) is None
                && bool_value(self.data_view().prop(PROP_SELECTED)) is None),
    {
        let role = self.role();
        self.is_clickable() && !self.is_text_input() && role != Role::Document && role != Role::Terminal
            && !self.supports_toggle() && !self.supports_expand_collapse() && self.is_selected().is_none()
    }

    /// Whether a read-only state is meaningful for the node's role.
    pub fn is_read_only_supported(&self) -> (r: bool)
        ensures
            r == read_only_supported_role(self.data_view().role),
    {
        if self.is_text_input() {
            return true;
        }
        match self.role() {
            Role::CheckBox | Role::ColorWell | Role::ComboBox | Role::Grid | Role::ListBox
            | Role::MenuItemCheckBox | Role::MenuItemRadio | Role::MenuListPopup | Role::RadioButton
            | Role::RadioGroup | Role::Slider | Role::Switch | Role::TreeGrid => true,
            _ => false,
        }
    }

    /// Whether the node's role is read-only unless the node says otherwise.
    pub fn should_have_read_only_state_by_default(&self) -> (r: bool)
        ensures
            r == read_only_by_default_role(self.data_view().role),
    {
        match self.role() {
            Role::Article | Role::Definition | Role::DescriptionList | Role::DescriptionListTerm
            | Role::Directory | Role::Document | Role::GraphicsDocument | Role::Image | Role::List
            | Role::ListItem | Role::PdfRoot | Role::ProgressIndicator | Role::RootWebArea | Role::Term
            | Role::Timer | Role::Toolbar | Role::Tooltip => true,
            _ => false,
        }
    }

    /// Whether the node is read-only: flagged so, read-only by default for
    /// its role, or of a role for which the state means nothing.
    pub fn is_read_only(&self) -> (r: bool)
        ensures
            r == (self.data_view().has_flag(Flag::ReadOnly)
                || read_only_by_default_role(self.data_view().role)
                || !read_only_supported_role(self.data_view().role)),
    {
        if self.data().is_read_only() {
            true
        } else {
            self.should_have_read_only_state_by_default() || !self.is_read_only_supported()
        }
    }

    /// Whether the node is read-only or disabled.
    pub fn is_read_only_or_disabled(&self) -> (r: bool)
        ensures
            r == (self.data_view().has_flag(Flag::ReadOnly)
                || read_only_by_default_role(self.data_view().role)
                || !read_only_supported_role(self.data_view().role)
                || self.data_view().has_flag(Flag::Disabled)),
    {
        self.is_read_only() || self.is_disabled()
    }

    /// The node's live setting: its own, else that of its parent, else off;
    /// at most as many parent links up as the tree has nodes.
    pub fn live(&self) -> (r: Live)
        requires
            self.wf(),
        ensures
            r == live_of(self.tree(), node_key(self.id_view()), self.tree().nodes_view().dom().len()),
    {
        let n = self.tree_state().node_count();
        live_within(self, n)
    }

    /// The node's role description, if it has one.
    pub fn role_description(&self) -> (r: Option<String>)
        ensures
            r is Some <==> string_value(self.data_view().prop(PROP_ROLE_DESCRIPTION)) is Some,
            r is Some ==> r.unwrap()@ == string_value(self.data_view().prop(PROP_ROLE_DESCRIPTION)).unwrap(),
    {
        match self.data().role_description() {
            Some(s) => Some(s.to_string()),
            None => None,
        }
    }

    /// Whether the node has a role description.
    pub fn has_role_description(&self) -> (r: bool)
        ensures
            r == (string_value(self.data_view().prop(PROP_ROLE_DESCRIPTION)) is Some),
    {
        self.data().role_description().is_some()
    }

    /// The node's description, if it has one.
    pub fn description(&self) -> (r: Option<String>)
        ensures
            r is Some <==> string_value(self.data_view().prop(PROP_DESCRIPTION)) is Some,
            r is Some ==> r.unwrap()@ == string_value(self.data_view().prop(PROP_DESCRIPTION)).unwrap(),
    {
        match self.data().description() {
            Some(s) => Some(s.to_string()),
            None => None,
        }
    }

    /// The node's placeholder, if it has one.
    pub fn placeholder(&self) -> (r: Option<String>)
        ensures
            r is Some <==> string_value(self.data_view().prop(PROP_PLACEHOLDER)) is Some,
            r is Some ==> r.unwrap()@ == string_value(self.data_view().prop(PROP_PLACEHOLDER)).unwrap(),
    {
        match self.data().placeholder() {
            Some(s) => Some(s.to_string()),
            None => None,
        }
    }

    /// The node's value as the provider gave it.
    pub fn raw_value(&self) -> (r: Option<&'a str>)
        ensures
            r is Some <==> string_value(self.data_view().prop(PROP_VALUE)) is Some,
            r is Some ==> r.unwrap()@ == string_value(self.data_view().prop(PROP_VALUE)).unwrap(),
    {
        self.data().value()
    }

    /// The node's author identifier, if it has one.
    pub fn author_id(&self) -> (r: Option<&'a str>)
        ensures
            r is Some <==> string_value(self.data_view().prop(PROP_AUTHOR_ID)) is Some,
            r is Some ==> r.unwrap()@ == string_value(self.data_view().prop(PROP_AUTHOR_ID)).unwrap(),
    {
        self.data().author_id()
    }

    /// The node's class name, if it has one.
    pub fn class_name(&self) -> (r: Option<&'a str>)
        ensures
            r is Some <==> string_value(self.data_view().prop(PROP_CLASS_NAME)) is Some,
            r is Some ==> r.unwrap()@ == string_value(self.data_view().prop(PROP_CLASS_NAME)).unwrap(),
    {
        self.data().class_name()
    }
}

/// The live setting of a stored node, with at most `fuel` parent links.
fn live_within(node: &NodeRef, fuel: usize) -> (r: Live)
    requires
        node.wf(),
    ensures
        r == live_of(node.tree(), node_key(node.id_view()), fuel as nat),
    decreases fuel,
{
    match node.data().live() {
        Some(l) => l,
        None => {
            if fuel > 0 {
                match node.parent() {
                    Some(parent) => live_within(&parent, fuel - 1),
                    None => Live::Off,
                }
            } else {
                Live::Off
            }
        },
    }
}

} // verus!
