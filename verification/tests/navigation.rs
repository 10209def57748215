use accesskit::filters::{common_filter, common_filter_with_root_exception, first_filtered_child, last_filtered_child, FilterResult};
use accesskit::ids::{FullNodeId, TreeIndex};
use accesskit::iterators::{
    next_filtered_sibling, previous_filtered_sibling, FilteredChildren, FollowingFilteredSiblings,
    FollowingSiblings, PrecedingFilteredSiblings, PrecedingSiblings,
};
use accesskit::roles::Role;
use accesskit::schema::{NodeBuilder, NodeClassSet, NodeId, Tree as TreeInfo, TreeId, TreeUpdate};
use accesskit::tree::{NodeRef, Tree};

const ROOT_ID: NodeId = NodeId(0);
const PARAGRAPH_0_ID: NodeId = NodeId(1);
const LABEL_0_0_IGNORED_ID: NodeId = NodeId(2);
const PARAGRAPH_1_IGNORED_ID: NodeId = NodeId(3);
const BUTTON_1_0_HIDDEN_ID: NodeId = NodeId(4);
const CONTAINER_1_0_0_HIDDEN_ID: NodeId = NodeId(5);
const LABEL_1_1_ID: NodeId = NodeId(6);
const BUTTON_1_2_HIDDEN_ID: NodeId = NodeId(7);
const CONTAINER_1_2_0_HIDDEN_ID: NodeId = NodeId(8);
const PARAGRAPH_2_ID: NodeId = NodeId(9);
const LABEL_2_0_ID: NodeId = NodeId(10);
const PARAGRAPH_3_IGNORED_ID: NodeId = NodeId(11);
const EMPTY_CONTAINER_3_0_IGNORED_ID: NodeId = NodeId(12);
const LINK_3_1_IGNORED_ID: NodeId = NodeId(13);
const LABEL_3_1_0_ID: NodeId = NodeId(14);
const BUTTON_3_2_ID: NodeId = NodeId(15);
const EMPTY_CONTAINER_3_3_IGNORED_ID: NodeId = NodeId(16);

fn nid(id: NodeId) -> FullNodeId {
    FullNodeId::new(id, TreeIndex(0))
}

fn build(role: Role, children: &[NodeId], hidden: bool) -> accesskit::schema::Node {
    let mut b = NodeBuilder::new(role);
    if !children.is_empty() {
        b.set_children(children.to_vec());
    }
    if hidden {
        b.set_hidden();
    }
    b.build(&mut NodeClassSet::new())
}

fn test_update(focus: NodeId) -> TreeUpdate {
    TreeUpdate {
        nodes: vec![
            (
                ROOT_ID,
                build(
                    Role::RootWebArea,
                    &[PARAGRAPH_0_ID, PARAGRAPH_1_IGNORED_ID, PARAGRAPH_2_ID, PARAGRAPH_3_IGNORED_ID],
                    false,
                ),
            ),
            (PARAGRAPH_0_ID, build(Role::Paragraph, &[LABEL_0_0_IGNORED_ID], false)),
            (LABEL_0_0_IGNORED_ID, build(Role::Label, &[], false)),
            (
                PARAGRAPH_1_IGNORED_ID,
                build(Role::Paragraph, &[BUTTON_1_0_HIDDEN_ID, LABEL_1_1_ID, BUTTON_1_2_HIDDEN_ID], false),
            ),
            (BUTTON_1_0_HIDDEN_ID, build(Role::Button, &[CONTAINER_1_0_0_HIDDEN_ID], true)),
            (CONTAINER_1_0_0_HIDDEN_ID, build(Role::GenericContainer, &[], true)),
            (LABEL_1_1_ID, build(Role::Label, &[], false)),
            (BUTTON_1_2_HIDDEN_ID, build(Role::Button, &[CONTAINER_1_2_0_HIDDEN_ID], true)),
            (CONTAINER_1_2_0_HIDDEN_ID, build(Role::GenericContainer, &[], true)),
            (PARAGRAPH_2_ID, build(Role::Paragraph, &[LABEL_2_0_ID], false)),
            (LABEL_2_0_ID, build(Role::Label, &[], false)),
            (
                PARAGRAPH_3_IGNORED_ID,
                build(
                    Role::Paragraph,
                    &[EMPTY_CONTAINER_3_0_IGNORED_ID, LINK_3_1_IGNORED_ID, BUTTON_3_2_ID, EMPTY_CONTAINER_3_3_IGNORED_ID],
                    false,
                ),
            ),
            (EMPTY_CONTAINER_3_0_IGNORED_ID, build(Role::GenericContainer, &[], false)),
            (LINK_3_1_IGNORED_ID, build(Role::Link, &[LABEL_3_1_0_ID], false)),
            (LABEL_3_1_0_ID, build(Role::Label, &[], false)),
            (BUTTON_3_2_ID, build(Role::Button, &[], false)),
            (EMPTY_CONTAINER_3_3_IGNORED_ID, build(Role::GenericContainer, &[], false)),
        ],
        tree: Some(TreeInfo::new(ROOT_ID)),
        tree_id: TreeId::root(),
        focus,
    }
}

fn test_tree() -> Tree {
    Tree::new(test_update(ROOT_ID), false).unwrap()
}

fn test_tree_filter(node: &NodeRef) -> FilterResult {
    let id = node.id().local;
    if node.is_hidden() {
        FilterResult::ExcludeSubtree
    } else if id == LABEL_0_0_IGNORED_ID
        || id == PARAGRAPH_1_IGNORED_ID
        || id == PARAGRAPH_3_IGNORED_ID
        || id == EMPTY_CONTAINER_3_0_IGNORED_ID
        || id == LINK_3_1_IGNORED_ID
        || id == EMPTY_CONTAINER_3_3_IGNORED_ID
    {
        FilterResult::ExcludeNode
    } else {
        FilterResult::Include
    }
}

fn ids_forward(mut it: FollowingSiblings) -> Vec<NodeId> {
    let mut out = Vec::new();
    while let Some(id) = it.next() {
        out.push(id.local);
    }
    out
}

fn ids_backward(mut it: FollowingSiblings) -> Vec<NodeId> {
    let mut out = Vec::new();
    while let Some(id) = it.next_back() {
        out.push(id.local);
    }
    out
}

fn preceding_forward(mut it: PrecedingSiblings) -> Vec<NodeId> {
    let mut out = Vec::new();
    while let Some(id) = it.next() {
        out.push(id.local);
    }
    out
}

fn preceding_backward(mut it: PrecedingSiblings) -> Vec<NodeId> {
    let mut out = Vec::new();
    while let Some(id) = it.next_back() {
        out.push(id.local);
    }
    out
}

#[test]
fn following_siblings() {
    let tree = test_tree();
    let state = tree.state();
    assert!(state.root().following_sibling_ids().next().is_none());
    assert_eq!(0, state.root().following_sibling_ids().len());
    let p0 = state.node_by_id(nid(PARAGRAPH_0_ID)).unwrap();
    assert_eq!(
        ids_forward(p0.following_sibling_ids()),
        vec![PARAGRAPH_1_IGNORED_ID, PARAGRAPH_2_ID, PARAGRAPH_3_IGNORED_ID]
    );
    assert_eq!(3, p0.following_sibling_ids().len());
    let p3 = state.node_by_id(nid(PARAGRAPH_3_IGNORED_ID)).unwrap();
    assert!(p3.following_sibling_ids().next().is_none());
    assert_eq!(0, p3.following_sibling_ids().len());
}

#[test]
fn following_siblings_reversed() {
    let tree = test_tree();
    let state = tree.state();
    assert!(state.root().following_sibling_ids().next_back().is_none());
    let p0 = state.node_by_id(nid(PARAGRAPH_0_ID)).unwrap();
    assert_eq!(
        ids_backward(FollowingSiblings::new(p0)),
        vec![PARAGRAPH_3_IGNORED_ID, PARAGRAPH_2_ID, PARAGRAPH_1_IGNORED_ID]
    );
    let p3 = state.node_by_id(nid(PARAGRAPH_3_IGNORED_ID)).unwrap();
    assert!(p3.following_sibling_ids().next_back().is_none());
}

#[test]
fn preceding_siblings() {
    let tree = test_tree();
    let state = tree.state();
    assert!(state.root().preceding_sibling_ids().next().is_none());
    assert_eq!(0, state.root().preceding_sibling_ids().len());
    let p3 = state.node_by_id(nid(PARAGRAPH_3_IGNORED_ID)).unwrap();
    assert_eq!(
        preceding_forward(p3.preceding_sibling_ids()),
        vec![PARAGRAPH_2_ID, PARAGRAPH_1_IGNORED_ID, PARAGRAPH_0_ID]
    );
    assert_eq!(3, p3.preceding_sibling_ids().len());
    let p0 = state.node_by_id(nid(PARAGRAPH_0_ID)).unwrap();
    assert!(p0.preceding_sibling_ids().next().is_none());
    assert_eq!(0, p0.preceding_sibling_ids().len());
}

#[test]
fn preceding_siblings_reversed() {
    let tree = test_tree();
    let state = tree.state();
    assert!(state.root().preceding_sibling_ids().next_back().is_none());
    let p3 = state.node_by_id(nid(PARAGRAPH_3_IGNORED_ID)).unwrap();
    assert_eq!(
        preceding_backward(PrecedingSiblings::new(p3)),
        vec![PARAGRAPH_0_ID, PARAGRAPH_1_IGNORED_ID, PARAGRAPH_2_ID]
    );
    let p0 = state.node_by_id(nid(PARAGRAPH_0_ID)).unwrap();
    assert!(p0.preceding_sibling_ids().next_back().is_none());
}

fn collect_following<F: Fn(&NodeRef) -> FilterResult>(mut it: FollowingFilteredSiblings<F>, back: bool) -> Vec<NodeId> {
    let mut out = Vec::new();
    loop {
        let n = if back { it.next_back() } else { it.next() };
        match n {
            Some(n) => out.push(n.id().local),
            None => break,
        }
    }
    out
}

fn collect_preceding<F: Fn(&NodeRef) -> FilterResult>(mut it: PrecedingFilteredSiblings<F>, back: bool) -> Vec<NodeId> {
    let mut out = Vec::new();
    loop {
        let n = if back { it.next_back() } else { it.next() };
        match n {
            Some(n) => out.push(n.id().local),
            None => break,
        }
    }
    out
}

fn collect_children<F: Fn(&NodeRef) -> FilterResult>(mut it: FilteredChildren<F>, back: bool) -> Vec<NodeId> {
    let mut out = Vec::new();
    loop {
        let n = if back { it.next_back() } else { it.next() };
        match n {
            Some(n) => out.push(n.id().local),
            None => break,
        }
    }
    out
}

#[test]
fn following_filtered_siblings() {
    let tree = test_tree();
    let state = tree.state();
    assert!(state.root().following_filtered_siblings(test_tree_filter).next().is_none());
    let p0 = state.node_by_id(nid(PARAGRAPH_0_ID)).unwrap();
    assert_eq!(
        collect_following(p0.following_filtered_siblings(test_tree_filter), false),
        vec![LABEL_1_1_ID, PARAGRAPH_2_ID, LABEL_3_1_0_ID, BUTTON_3_2_ID]
    );
    let l310 = state.node_by_id(nid(LABEL_3_1_0_ID)).unwrap();
    assert_eq!(collect_following(l310.following_filtered_siblings(test_tree_filter), false), vec![BUTTON_3_2_ID]);
    let p3 = state.node_by_id(nid(PARAGRAPH_3_IGNORED_ID)).unwrap();
    assert!(p3.following_filtered_siblings(test_tree_filter).next().is_none());
}

#[test]
fn following_filtered_siblings_reversed() {
    let tree = test_tree();
    let state = tree.state();
    assert!(state.root().following_filtered_siblings(test_tree_filter).next_back().is_none());
    let p0 = state.node_by_id(nid(PARAGRAPH_0_ID)).unwrap();
    assert_eq!(
        collect_following(p0.following_filtered_siblings(test_tree_filter), true),
        vec![BUTTON_3_2_ID, LABEL_3_1_0_ID, PARAGRAPH_2_ID, LABEL_1_1_ID]
    );
    let l310 = state.node_by_id(nid(LABEL_3_1_0_ID)).unwrap();
    assert_eq!(collect_following(l310.following_filtered_siblings(test_tree_filter), true), vec![BUTTON_3_2_ID]);
    let p3 = state.node_by_id(nid(PARAGRAPH_3_IGNORED_ID)).unwrap();
    assert!(p3.following_filtered_siblings(test_tree_filter).next_back().is_none());
}

#[test]
fn preceding_filtered_siblings() {
    let tree = test_tree();
    let state = tree.state();
    assert!(state.root().preceding_filtered_siblings(test_tree_filter).next().is_none());
    let p3 = state.node_by_id(nid(PARAGRAPH_3_IGNORED_ID)).unwrap();
    assert_eq!(
        collect_preceding(p3.preceding_filtered_siblings(test_tree_filter), false),
        vec![PARAGRAPH_2_ID, LABEL_1_1_ID, PARAGRAPH_0_ID]
    );
    let l310 = state.node_by_id(nid(LABEL_3_1_0_ID)).unwrap();
    assert_eq!(
        collect_preceding(PrecedingFilteredSiblings::new(l310, test_tree_filter), false),
        vec![PARAGRAPH_2_ID, LABEL_1_1_ID, PARAGRAPH_0_ID]
    );
    let p0 = state.node_by_id(nid(PARAGRAPH_0_ID)).unwrap();
    assert!(p0.preceding_filtered_siblings(test_tree_filter).next().is_none());
}

#[test]
fn preceding_filtered_siblings_reversed() {
    let tree = test_tree();
    let state = tree.state();
    assert!(state.root().preceding_filtered_siblings(test_tree_filter).next_back().is_none());
    let p3 = state.node_by_id(nid(PARAGRAPH_3_IGNORED_ID)).unwrap();
    assert_eq!(
        collect_preceding(p3.preceding_filtered_siblings(test_tree_filter), true),
        vec![PARAGRAPH_0_ID, LABEL_1_1_ID, PARAGRAPH_2_ID]
    );
    let l310 = state.node_by_id(nid(LABEL_3_1_0_ID)).unwrap();
    assert_eq!(
        collect_preceding(l310.preceding_filtered_siblings(test_tree_filter), true),
        vec![PARAGRAPH_0_ID, LABEL_1_1_ID, PARAGRAPH_2_ID]
    );
    let p0 = state.node_by_id(nid(PARAGRAPH_0_ID)).unwrap();
    assert!(p0.preceding_filtered_siblings(test_tree_filter).next_back().is_none());
}

#[test]
fn filtered_children() {
    let tree = test_tree();
    let state = tree.state();
    assert_eq!(
        collect_children(state.root().filtered_children(test_tree_filter), false),
        vec![PARAGRAPH_0_ID, LABEL_1_1_ID, PARAGRAPH_2_ID, LABEL_3_1_0_ID, BUTTON_3_2_ID]
    );
    let p0 = state.node_by_id(nid(PARAGRAPH_0_ID)).unwrap();
    assert!(p0.filtered_children(test_tree_filter).next().is_none());
    let l00 = state.node_by_id(nid(LABEL_0_0_IGNORED_ID)).unwrap();
    assert!(FilteredChildren::new(l00, test_tree_filter).next().is_none());
}

#[test]
fn filtered_children_reversed() {
    let tree = test_tree();
    let state = tree.state();
    assert_eq!(
        collect_children(state.root().filtered_children(test_tree_filter), true),
        vec![BUTTON_3_2_ID, LABEL_3_1_0_ID, PARAGRAPH_2_ID, LABEL_1_1_ID, PARAGRAPH_0_ID]
    );
    let p0 = state.node_by_id(nid(PARAGRAPH_0_ID)).unwrap();
    assert!(p0.filtered_children(test_tree_filter).next_back().is_none());
    let l00 = state.node_by_id(nid(LABEL_0_0_IGNORED_ID)).unwrap();
    assert!(l00.filtered_children(test_tree_filter).next_back().is_none());
}

#[test]
fn next_and_previous_filtered_sibling() {
    let tree = test_tree();
    let state = tree.state();
    let p0 = state.node_by_id(nid(PARAGRAPH_0_ID)).unwrap();
    assert_eq!(next_filtered_sibling(Some(p0), &test_tree_filter).unwrap().id(), nid(LABEL_1_1_ID));
    let l11 = state.node_by_id(nid(LABEL_1_1_ID)).unwrap();
    assert_eq!(previous_filtered_sibling(Some(l11), &test_tree_filter).unwrap().id(), nid(PARAGRAPH_0_ID));
    assert!(next_filtered_sibling(None, &test_tree_filter).is_none());
    let b32 = state.node_by_id(nid(BUTTON_3_2_ID)).unwrap();
    assert!(next_filtered_sibling(Some(b32), &test_tree_filter).is_none());
}

#[test]
fn parent_and_index() {
    let tree = test_tree();
    let state = tree.state();
    assert!(state.root().parent_and_index().is_none());
    let get = |id: NodeId| {
        state.node_by_id(nid(id)).unwrap().parent_and_index().map(|(parent, index)| (parent.id(), index))
    };
    assert_eq!(Some((nid(ROOT_ID), 0)), get(PARAGRAPH_0_ID));
    assert_eq!(Some((nid(PARAGRAPH_0_ID), 0)), get(LABEL_0_0_IGNORED_ID));
    assert_eq!(Some((nid(ROOT_ID), 1)), get(PARAGRAPH_1_IGNORED_ID));
}

#[test]
fn is_root() {
    let tree = test_tree();
    assert!(tree.state().node_by_id(nid(ROOT_ID)).unwrap().is_root());
    assert!(!tree.state().node_by_id(nid(PARAGRAPH_0_ID)).unwrap().is_root());
}

#[test]
fn filtered_parent() {
    let tree = test_tree();
    let state = tree.state();
    let parent_of = |id: NodeId| accesskit::filters::filtered_parent(&state.node_by_id(nid(id)).unwrap(), &test_tree_filter).map(|p| p.id());
    assert_eq!(Some(nid(ROOT_ID)), parent_of(LABEL_1_1_ID));
    assert_eq!(Some(nid(ROOT_ID)), parent_of(LABEL_3_1_0_ID));
    assert_eq!(Some(nid(PARAGRAPH_2_ID)), parent_of(LABEL_2_0_ID));
    assert!(accesskit::filters::filtered_parent(&state.root(), &test_tree_filter).is_none());
}

#[test]
fn normal() {
    let tree = test_tree();
    let n = tree.state().node_by_id(nid(PARAGRAPH_0_ID)).unwrap();
    assert_eq!(FilterResult::Include, common_filter(&n));
}

#[test]
fn hidden() {
    let tree = test_tree();
    let n = tree.state().node_by_id(nid(BUTTON_1_0_HIDDEN_ID)).unwrap();
    assert_eq!(FilterResult::ExcludeSubtree, common_filter(&n));
}

#[test]
fn hidden_but_focused() {
    let tree = Tree::new(test_update(BUTTON_1_0_HIDDEN_ID), true).unwrap();
    let n = tree.state().node_by_id(nid(BUTTON_1_0_HIDDEN_ID)).unwrap();
    assert_eq!(FilterResult::Include, common_filter(&n));
}

#[test]
fn generic_container() {
    let tree = test_tree();
    let n = tree.state().node_by_id(nid(EMPTY_CONTAINER_3_0_IGNORED_ID)).unwrap();
    assert_eq!(FilterResult::ExcludeNode, common_filter(&n));
    assert_eq!(FilterResult::ExcludeNode, common_filter_with_root_exception(&n));
}

#[test]
fn hidden_parent() {
    let tree = Tree::new(test_update(ROOT_ID), false).unwrap();
    let mut b = NodeBuilder::new(Role::Button);
    b.set_children(vec![NodeId(50)]);
    b.set_hidden();
    let mut update = test_update(ROOT_ID);
    update.nodes.push((NodeId(17), b.build(&mut NodeClassSet::new())));
    update.nodes.push((NodeId(50), NodeBuilder::new(Role::Label).build(&mut NodeClassSet::new())));
    update.nodes[0].1 = build(
        Role::RootWebArea,
        &[PARAGRAPH_0_ID, PARAGRAPH_1_IGNORED_ID, PARAGRAPH_2_ID, PARAGRAPH_3_IGNORED_ID, NodeId(17)],
        false,
    );
    let tree2 = Tree::new(update, false).unwrap();
    let child = tree2.state().node_by_id(nid(NodeId(50))).unwrap();
    assert_eq!(FilterResult::ExcludeSubtree, common_filter(&child));
    let shown = tree.state().node_by_id(nid(LABEL_2_0_ID)).unwrap();
    assert_eq!(FilterResult::Include, common_filter(&shown));
}

#[test]
fn hidden_parent_but_focused() {
    let tree = Tree::new(test_update(CONTAINER_1_0_0_HIDDEN_ID), true).unwrap();
    let n = tree.state().node_by_id(nid(CONTAINER_1_0_0_HIDDEN_ID)).unwrap();
    assert_eq!(FilterResult::Include, common_filter(&n));
}

#[test]
fn text_run() {
    let mut update = test_update(ROOT_ID);
    update.nodes.push((NodeId(30), NodeBuilder::new(Role::TextRun).build(&mut NodeClassSet::new())));
    update.nodes[10].1 = build(Role::Label, &[NodeId(30)], false);
    let tree = Tree::new(update, false).unwrap();
    let n = tree.state().node_by_id(nid(NodeId(30))).unwrap();
    assert_eq!(FilterResult::ExcludeNode, common_filter(&n));
}

#[test]
fn root_is_shown_with_root_exception() {
    let mut update = test_update(ROOT_ID);
    update.nodes[0].1 = build(
        Role::GenericContainer,
        &[PARAGRAPH_0_ID, PARAGRAPH_1_IGNORED_ID, PARAGRAPH_2_ID, PARAGRAPH_3_IGNORED_ID],
        false,
    );
    let tree = Tree::new(update, false).unwrap();
    let root = tree.state().root();
    assert_eq!(FilterResult::ExcludeNode, common_filter(&root));
    assert_eq!(FilterResult::Include, common_filter_with_root_exception(&root));
}

#[test]
fn deepest_first_child() {
    let tree = test_tree();
    let state = tree.state();
    assert_eq!(nid(LABEL_0_0_IGNORED_ID), state.root().deepest_first_child().unwrap().id());
    assert_eq!(
        nid(LABEL_0_0_IGNORED_ID),
        state.node_by_id(nid(PARAGRAPH_0_ID)).unwrap().deepest_first_child().unwrap().id()
    );
    assert!(state.node_by_id(nid(LABEL_0_0_IGNORED_ID)).unwrap().deepest_first_child().is_none());
}

#[test]
fn deepest_first_filtered_child() {
    let tree = test_tree();
    let state = tree.state();
    assert_eq!(
        nid(PARAGRAPH_0_ID),
        accesskit::filters::deepest_first_filtered_child(&state.root(), &test_tree_filter).unwrap().id()
    );
    assert!(accesskit::filters::deepest_first_filtered_child(&state.node_by_id(nid(PARAGRAPH_0_ID)).unwrap(), &test_tree_filter).is_none());
    assert!(
        accesskit::filters::deepest_first_filtered_child(&state.node_by_id(nid(LABEL_0_0_IGNORED_ID)).unwrap(), &test_tree_filter).is_none()
    );
}

#[test]
fn deepest_last_child() {
    let tree = test_tree();
    let state = tree.state();
    assert_eq!(nid(EMPTY_CONTAINER_3_3_IGNORED_ID), state.root().deepest_last_child().unwrap().id());
    assert_eq!(
        nid(EMPTY_CONTAINER_3_3_IGNORED_ID),
        state.node_by_id(nid(PARAGRAPH_3_IGNORED_ID)).unwrap().deepest_last_child().unwrap().id()
    );
    assert!(state.node_by_id(nid(BUTTON_3_2_ID)).unwrap().deepest_last_child().is_none());
}

#[test]
fn deepest_last_filtered_child() {
    let tree = test_tree();
    let state = tree.state();
    assert_eq!(nid(BUTTON_3_2_ID), accesskit::filters::deepest_last_filtered_child(&state.root(), &test_tree_filter).unwrap().id());
    assert_eq!(
        nid(BUTTON_3_2_ID),
        accesskit::filters::deepest_last_filtered_child(&state.node_by_id(nid(PARAGRAPH_3_IGNORED_ID)).unwrap(), &test_tree_filter)
            .unwrap()
            .id()
    );
    assert!(accesskit::filters::deepest_last_filtered_child(&state.node_by_id(nid(BUTTON_3_2_ID)).unwrap(), &test_tree_filter).is_none());
    assert!(accesskit::filters::deepest_last_filtered_child(&state.node_by_id(nid(PARAGRAPH_0_ID)).unwrap(), &test_tree_filter).is_none());
}

#[test]
fn is_descendant_of() {
    let tree = test_tree();
    let state = tree.state();
    let node = |id: NodeId| state.node_by_id(nid(id)).unwrap();
    assert!(node(PARAGRAPH_0_ID).is_descendant_of(&state.root()));
    assert!(node(LABEL_0_0_IGNORED_ID).is_descendant_of(&state.root()));
    assert!(node(LABEL_0_0_IGNORED_ID).is_descendant_of(&node(PARAGRAPH_0_ID)));
    assert!(!node(LABEL_0_0_IGNORED_ID).is_descendant_of(&node(PARAGRAPH_2_ID)));
    assert!(!node(PARAGRAPH_0_ID).is_descendant_of(&node(PARAGRAPH_2_ID)));
}

#[test]
fn first_and_last_filtered_child() {
    let tree = test_tree();
    let state = tree.state();
    assert_eq!(first_filtered_child(&state.root(), &test_tree_filter).unwrap().id(), nid(PARAGRAPH_0_ID));
    assert_eq!(last_filtered_child(&state.root(), &test_tree_filter).unwrap().id(), nid(BUTTON_3_2_ID));
    let p1 = state.node_by_id(nid(PARAGRAPH_1_IGNORED_ID)).unwrap();
    assert_eq!(first_filtered_child(&p1, &test_tree_filter).unwrap().id(), nid(LABEL_1_1_ID));
}

#[test]
fn graft_node_without_subtree_has_no_filtered_children() {
    let mut b = NodeBuilder::new(Role::GenericContainer);
    b.set_tree_id(TreeId(1));
    let update = TreeUpdate {
        nodes: vec![
            (NodeId(0), build(Role::Window, &[NodeId(1)], false)),
            (NodeId(1), b.build(&mut NodeClassSet::new())),
        ],
        tree: Some(TreeInfo::new(NodeId(0))),
        tree_id: TreeId::root(),
        focus: NodeId(0),
    };
    let tree = Tree::new(update, false).unwrap();
    let graft = tree.state().node_by_id(nid(NodeId(1))).unwrap();
    assert!(graft.filtered_children(common_filter).next().is_none());
}

struct IgnoreChanges;

impl accesskit::tree::ChangeHandler for IgnoreChanges {
    fn node_added(&mut self, _: &NodeRef) {}
    fn node_updated(&mut self, _: &NodeRef, _: &NodeRef) {}
    fn focus_moved(&mut self, _: Option<&NodeRef>, _: Option<&NodeRef>) {}
    fn node_removed(&mut self, _: &NodeRef) {}
}

fn collect_nodes<'a, F: Fn(&NodeRef<'a>) -> FilterResult>(mut it: FilteredChildren<'a, F>) -> Vec<NodeRef<'a>> {
    let mut out = Vec::new();
    while let Some(n) = it.next() {
        out.push(n);
    }
    out
}

#[test]
fn filtered_children_crosses_subtree_boundary() {
    let subtree_id = TreeId(1);
    let mut b = NodeBuilder::new(Role::GenericContainer);
    b.set_tree_id(subtree_id);
    let update = TreeUpdate {
        nodes: vec![
            (NodeId(0), build(Role::Window, &[NodeId(1)], false)),
            (NodeId(1), b.build(&mut NodeClassSet::new())),
        ],
        tree: Some(TreeInfo::new(NodeId(0))),
        tree_id: TreeId::root(),
        focus: NodeId(0),
    };
    let mut tree = Tree::new(update, false).unwrap();
    let subtree_update = TreeUpdate {
        nodes: vec![
            (NodeId(0), build(Role::Document, &[NodeId(1)], false)),
            (NodeId(1), build(Role::Button, &[], false)),
        ],
        tree: Some(TreeInfo::new(NodeId(0))),
        tree_id: subtree_id,
        focus: NodeId(0),
    };
    tree.update_and_process_changes(subtree_update, &mut IgnoreChanges).unwrap();

    let root = tree.state().root();
    let filtered_children = collect_nodes(root.filtered_children(common_filter));
    assert_eq!(1, filtered_children.len());
    let subtree_root_id = FullNodeId::new(NodeId(0), TreeIndex(1));
    assert_eq!(subtree_root_id, filtered_children[0].id());

    let document = &filtered_children[0];
    let doc_children = collect_nodes(document.filtered_children(common_filter));
    assert_eq!(1, doc_children.len());
    let button_id = FullNodeId::new(NodeId(1), TreeIndex(1));
    assert_eq!(button_id, doc_children[0].id());
}

#[test]
fn sibling_nodes() {
    let tree = test_tree();
    let state = tree.state();
    let p0 = state.node_by_id(nid(PARAGRAPH_0_ID)).unwrap();
    let following: Vec<NodeId> = p0.following_siblings().iter().map(|n| n.id().local).collect();
    assert_eq!(following, vec![PARAGRAPH_1_IGNORED_ID, PARAGRAPH_2_ID, PARAGRAPH_3_IGNORED_ID]);
    let p3 = state.node_by_id(nid(PARAGRAPH_3_IGNORED_ID)).unwrap();
    let preceding: Vec<NodeId> = p3.preceding_siblings().iter().map(|n| n.id().local).collect();
    assert_eq!(preceding, vec![PARAGRAPH_2_ID, PARAGRAPH_1_IGNORED_ID, PARAGRAPH_0_ID]);
    assert!(state.root().following_siblings().is_empty());
    assert!(state.root().preceding_siblings().is_empty());
}
