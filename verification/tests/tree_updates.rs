use accesskit::ids::{FullNodeId, TreeIndex};
use accesskit::roles::Role;
use accesskit::schema::{Node, NodeBuilder, NodeClassSet, NodeId, Tree as TreeInfo, TreeId, TreeUpdate};
use accesskit::tree::{ChangeHandler, NodeRef, Tree, TreeError, TreeIndexMap};

#[derive(Debug, PartialEq)]
enum Event {
    Added(FullNodeId),
    Updated(FullNodeId, FullNodeId),
    FocusMoved(Option<FullNodeId>, Option<FullNodeId>),
    Removed(FullNodeId),
}

#[derive(Default)]
struct Recorder {
    events: Vec<Event>,
    updated_focus: Vec<(FullNodeId, bool, bool)>,
    updated_children: Vec<(FullNodeId, Vec<FullNodeId>, Vec<FullNodeId>)>,
    updated_parents: Vec<(FullNodeId, Option<FullNodeId>, Option<FullNodeId>)>,
    updated_names: Vec<(FullNodeId, Option<String>, Option<String>)>,
}

impl ChangeHandler for Recorder {
    fn node_added(&mut self, node: &NodeRef) {
        self.events.push(Event::Added(node.id()));
    }
    fn node_updated(&mut self, old_node: &NodeRef, new_node: &NodeRef) {
        self.events.push(Event::Updated(old_node.id(), new_node.id()));
        self.updated_focus.push((new_node.id(), old_node.is_focused(), new_node.is_focused()));
        self.updated_children.push((new_node.id(), old_node.child_ids(), new_node.child_ids()));
        self.updated_parents.push((new_node.id(), old_node.parent_id(), new_node.parent_id()));
        self.updated_names.push((
            new_node.id(),
            old_node.data().name().map(String::from),
            new_node.data().name().map(String::from),
        ));
    }
    fn focus_moved(&mut self, old_node: Option<&NodeRef>, new_node: Option<&NodeRef>) {
        self.events.push(Event::FocusMoved(old_node.map(|n| n.id()), new_node.map(|n| n.id())));
    }
    fn node_removed(&mut self, node: &NodeRef) {
        self.events.push(Event::Removed(node.id()));
    }
}

struct NoOpHandler;

impl ChangeHandler for NoOpHandler {
    fn node_added(&mut self, _: &NodeRef) {}
    fn node_updated(&mut self, _: &NodeRef, _: &NodeRef) {}
    fn focus_moved(&mut self, _: Option<&NodeRef>, _: Option<&NodeRef>) {}
    fn node_removed(&mut self, _: &NodeRef) {}
}

fn node_id(n: u64) -> FullNodeId {
    FullNodeId::new(NodeId(n), TreeIndex(0))
}

fn subtree_node_id(n: u64) -> FullNodeId {
    FullNodeId::new(NodeId(n), TreeIndex(1))
}

fn subtree_id() -> TreeId {
    TreeId(1)
}

fn node(role: Role) -> Node {
    NodeBuilder::new(role).build(&mut NodeClassSet::new())
}

fn parent(role: Role, children: &[u64]) -> Node {
    let mut b = NodeBuilder::new(role);
    b.set_children(children.iter().map(|c| NodeId(*c)).collect());
    b.build(&mut NodeClassSet::new())
}

fn named(role: Role, name: &str) -> Node {
    let mut b = NodeBuilder::new(role);
    b.set_name(name.to_string());
    b.build(&mut NodeClassSet::new())
}

fn graft(tree_id: TreeId) -> Node {
    let mut b = NodeBuilder::new(Role::GenericContainer);
    b.set_tree_id(tree_id);
    b.build(&mut NodeClassSet::new())
}

fn root_update(nodes: Vec<(NodeId, Node)>, focus: u64) -> TreeUpdate {
    TreeUpdate { nodes, tree: Some(TreeInfo::new(NodeId(0))), tree_id: TreeId::root(), focus: NodeId(focus) }
}

fn plain_update(nodes: Vec<(NodeId, Node)>, focus: u64) -> TreeUpdate {
    TreeUpdate { nodes, tree: None, tree_id: TreeId::root(), focus: NodeId(focus) }
}

fn tree_with_graft() -> Tree {
    let update = root_update(
        vec![(NodeId(0), parent(Role::Window, &[1])), (NodeId(1), graft(subtree_id()))],
        0,
    );
    Tree::new(update, false).unwrap()
}

fn push_subtree(tree: &mut Tree) {
    let update = TreeUpdate {
        nodes: vec![(NodeId(0), parent(Role::Document, &[1])), (NodeId(1), node(Role::Paragraph))],
        tree: Some(TreeInfo::new(NodeId(0))),
        tree_id: subtree_id(),
        focus: NodeId(0),
    };
    tree.update_and_process_changes(update, &mut NoOpHandler).unwrap();
}

#[test]
fn tree_index_map_assigns_sequential_indices() {
    let mut map = TreeIndexMap::new();
    let index1 = map.get_or_create_index(TreeId::root());
    let index2 = map.get_or_create_index(TreeId(1));
    let index3 = map.get_or_create_index(TreeId(2));
    assert_eq!(index1, TreeIndex(0));
    assert_eq!(index2, TreeIndex(1));
    assert_eq!(index3, TreeIndex(2));
}

#[test]
fn tree_index_map_returns_same_index_for_same_id() {
    let mut map = TreeIndexMap::new();
    let index1 = map.get_or_create_index(TreeId::root());
    let index2 = map.get_or_create_index(TreeId::root());
    assert_eq!(index1, index2);
}

#[test]
fn tree_index_map_get_id_returns_correct_id() {
    let mut map = TreeIndexMap::new();
    let index1 = map.get_or_create_index(TreeId::root());
    let index2 = map.get_or_create_index(TreeId(1));
    assert_eq!(map.get_id(index1), Some(TreeId::root()));
    assert_eq!(map.get_id(index2), Some(TreeId(1)));
}

#[test]
fn tree_index_map_get_id_returns_none_for_unknown_index() {
    let map = TreeIndexMap::new();
    assert_eq!(map.get_id(TreeIndex(0)), None);
    assert_eq!(map.get_id(TreeIndex(999)), None);
}

#[test]
fn tree_index_map_get_index_returns_existing_index() {
    let mut map = TreeIndexMap::new();
    let created1 = map.get_or_create_index(TreeId::root());
    let created2 = map.get_or_create_index(TreeId(1));
    assert_eq!(map.get_index(TreeId::root()), Some(created1));
    assert_eq!(map.get_index(TreeId(1)), Some(created2));
}

#[test]
fn tree_index_map_get_index_returns_none_for_unknown_id() {
    let map = TreeIndexMap::new();
    assert_eq!(map.get_index(TreeId::root()), None);
    assert_eq!(map.get_index(TreeId(42)), None);
}

#[test]
fn tree_index_map_get_index_does_not_create_mapping() {
    let mut map = TreeIndexMap::new();
    let unknown = TreeId(7);
    assert_eq!(map.get_index(unknown), None);
    let first = map.get_or_create_index(TreeId::root());
    assert_eq!(first, TreeIndex(0));
    assert_eq!(map.get_index(unknown), None);
}

#[test]
fn init_tree_with_root_node() {
    let tree = Tree::new(root_update(vec![(NodeId(0), node(Role::Window))], 0), false).unwrap();
    assert_eq!(node_id(0), tree.state().root().id());
    assert_eq!(Role::Window, tree.state().root().role());
    assert!(tree.state().root().parent().is_none());
}

#[test]
fn init_tree_with_non_root_tree_id_panics() {
    let update = TreeUpdate {
        nodes: vec![(NodeId(0), node(Role::Window))],
        tree: Some(TreeInfo::new(NodeId(0))),
        tree_id: TreeId(1),
        focus: NodeId(0),
    };
    assert_eq!(Tree::new(update, false).err(), Some(TreeError::InitWithSubtree));
}

#[test]
fn init_without_tree_data_is_refused() {
    let update = plain_update(vec![(NodeId(0), node(Role::Window))], 0);
    assert_eq!(Tree::new(update, false).err(), Some(TreeError::InitWithoutTree));
}

#[test]
fn root_node_has_children() {
    let update = root_update(
        vec![
            (NodeId(0), parent(Role::Window, &[1, 2])),
            (NodeId(1), node(Role::Button)),
            (NodeId(2), node(Role::Button)),
        ],
        0,
    );
    let tree = Tree::new(update, false).unwrap();
    let state = tree.state();
    assert_eq!(node_id(0), state.node_by_id(node_id(1)).unwrap().parent().unwrap().id());
    assert_eq!(node_id(0), state.node_by_id(node_id(2)).unwrap().parent().unwrap().id());
    assert_eq!(2, state.root().children().len());
}

#[test]
fn add_child_to_root_node() {
    let mut tree = Tree::new(root_update(vec![(NodeId(0), node(Role::Window))], 0), false).unwrap();
    assert_eq!(0, tree.state().root().children().len());
    let second_update = plain_update(
        vec![(NodeId(0), parent(Role::Window, &[1])), (NodeId(1), node(Role::RootWebArea))],
        0,
    );
    let mut handler = Recorder::default();
    tree.update_and_process_changes(second_update, &mut handler).unwrap();
    assert_eq!(handler.events, vec![Event::Added(node_id(1)), Event::Updated(node_id(0), node_id(0))]);
    assert_eq!(handler.updated_children, vec![(node_id(0), vec![], vec![node_id(1)])]);
    let state = tree.state();
    assert_eq!(1, state.root().children().len());
    assert_eq!(node_id(1), state.root().children()[0].id());
    assert_eq!(node_id(0), state.node_by_id(node_id(1)).unwrap().parent().unwrap().id());
}

#[test]
fn remove_child_from_root_node() {
    let update = root_update(
        vec![(NodeId(0), parent(Role::Window, &[1])), (NodeId(1), node(Role::RootWebArea))],
        0,
    );
    let mut tree = Tree::new(update, false).unwrap();
    assert_eq!(1, tree.state().root().children().len());
    let mut handler = Recorder::default();
    tree.update_and_process_changes(plain_update(vec![(NodeId(0), node(Role::Window))], 0), &mut handler)
        .unwrap();
    assert_eq!(handler.events, vec![Event::Updated(node_id(0), node_id(0)), Event::Removed(node_id(1))]);
    assert_eq!(handler.updated_children, vec![(node_id(0), vec![node_id(1)], vec![])]);
    assert_eq!(0, tree.state().root().children().len());
    assert!(tree.state().node_by_id(node_id(1)).is_none());
}

#[test]
fn move_focus_between_siblings() {
    let update = root_update(
        vec![
            (NodeId(0), parent(Role::Window, &[1, 2])),
            (NodeId(1), node(Role::Button)),
            (NodeId(2), node(Role::Button)),
        ],
        1,
    );
    let mut tree = Tree::new(update, true).unwrap();
    assert!(tree.state().node_by_id(node_id(1)).unwrap().is_focused());
    let mut handler = Recorder::default();
    tree.update_and_process_changes(plain_update(vec![], 2), &mut handler).unwrap();
    assert_eq!(
        handler.events,
        vec![
            Event::Updated(node_id(1), node_id(1)),
            Event::Updated(node_id(2), node_id(2)),
            Event::FocusMoved(Some(node_id(1)), Some(node_id(2))),
        ]
    );
    assert_eq!(handler.updated_focus, vec![(node_id(1), true, false), (node_id(2), false, true)]);
    assert!(tree.state().node_by_id(node_id(2)).unwrap().is_focused());
    assert!(!tree.state().node_by_id(node_id(1)).unwrap().is_focused());
}

#[test]
fn update_node() {
    let update = root_update(
        vec![(NodeId(0), parent(Role::Window, &[1])), (NodeId(1), named(Role::Button, "foo"))],
        0,
    );
    let mut tree = Tree::new(update, false).unwrap();
    assert_eq!(Some("foo"), tree.state().node_by_id(node_id(1)).unwrap().data().name());
    let mut handler = Recorder::default();
    tree.update_and_process_changes(plain_update(vec![(NodeId(1), named(Role::Button, "bar"))], 0), &mut handler)
        .unwrap();
    assert_eq!(handler.events, vec![Event::Updated(node_id(1), node_id(1))]);
    assert_eq!(handler.updated_names, vec![(node_id(1), Some("foo".to_string()), Some("bar".to_string()))]);
    assert_eq!(Some("bar"), tree.state().node_by_id(node_id(1)).unwrap().data().name());
}

#[test]
fn no_change_update() {
    let make = || {
        root_update(
            vec![(NodeId(0), parent(Role::Window, &[1])), (NodeId(1), named(Role::Button, "foo"))],
            0,
        )
    };
    let mut tree = Tree::new(make(), false).unwrap();
    let mut handler = Recorder::default();
    tree.update_and_process_changes(make(), &mut handler).unwrap();
    assert_eq!(handler.events, vec![]);
}

#[test]
fn move_node() {
    let update = root_update(
        vec![
            (NodeId(0), parent(Role::Window, &[1])),
            (NodeId(1), parent(Role::GenericContainer, &[2])),
            (NodeId(2), node(Role::Button)),
        ],
        0,
    );
    let mut tree = Tree::new(update, false).unwrap();
    let mut handler = Recorder::default();
    tree.update_and_process_changes(plain_update(vec![(NodeId(0), parent(Role::Window, &[2]))], 0), &mut handler)
        .unwrap();
    assert!(handler.events.contains(&Event::Updated(node_id(0), node_id(0))));
    assert!(handler.events.contains(&Event::Updated(node_id(2), node_id(2))));
    assert!(handler.events.contains(&Event::Removed(node_id(1))));
    assert_eq!(handler.events.len(), 3);
    assert!(handler.updated_children.contains(&(node_id(0), vec![node_id(1)], vec![node_id(2)])));
    assert!(handler.updated_parents.contains(&(node_id(2), Some(node_id(1)), Some(node_id(0)))));
    assert_eq!(tree.state().node_by_id(node_id(0)).unwrap().child_ids(), vec![node_id(2)]);
    assert!(tree.state().node_by_id(node_id(1)).is_none());
    assert_eq!(tree.state().node_by_id(node_id(2)).unwrap().parent_id(), Some(node_id(0)));
}

#[test]
fn graft_node_tracks_subtree() {
    let tree = tree_with_graft();
    assert_eq!(tree.state().graft_parent(subtree_id()), Some(node_id(1)));
}

#[test]
fn duplicate_graft_parent_panics() {
    let update = root_update(
        vec![
            (NodeId(0), parent(Role::Window, &[1, 2])),
            (NodeId(1), graft(subtree_id())),
            (NodeId(2), graft(subtree_id())),
        ],
        0,
    );
    assert_eq!(Tree::new(update, false).err(), Some(TreeError::DuplicateGraft));
}

#[test]
fn reparent_subtree_by_removing_old_graft() {
    let update = root_update(
        vec![
            (NodeId(0), parent(Role::Window, &[1, 2])),
            (NodeId(1), graft(subtree_id())),
            (NodeId(2), node(Role::GenericContainer)),
        ],
        0,
    );
    let mut tree = Tree::new(update, false).unwrap();
    assert_eq!(tree.state().graft_parent(subtree_id()), Some(node_id(1)));
    let update = plain_update(vec![(NodeId(0), parent(Role::Window, &[2])), (NodeId(2), graft(subtree_id()))], 0);
    tree.update_and_process_changes(update, &mut NoOpHandler).unwrap();
    assert_eq!(tree.state().graft_parent(subtree_id()), Some(node_id(2)));
}

#[test]
fn reparent_subtree_by_clearing_old_graft_tree_id() {
    let update = root_update(
        vec![
            (NodeId(0), parent(Role::Window, &[1, 2])),
            (NodeId(1), graft(subtree_id())),
            (NodeId(2), node(Role::GenericContainer)),
        ],
        0,
    );
    let mut tree = Tree::new(update, false).unwrap();
    let update = plain_update(
        vec![(NodeId(1), node(Role::GenericContainer)), (NodeId(2), graft(subtree_id()))],
        0,
    );
    tree.update_and_process_changes(update, &mut NoOpHandler).unwrap();
    assert_eq!(tree.state().graft_parent(subtree_id()), Some(node_id(2)));
}

#[test]
fn duplicate_graft_parent_on_update_panics() {
    let update = root_update(
        vec![
            (NodeId(0), parent(Role::Window, &[1, 2])),
            (NodeId(1), graft(subtree_id())),
            (NodeId(2), node(Role::GenericContainer)),
        ],
        0,
    );
    let mut tree = Tree::new(update, false).unwrap();
    let update = plain_update(vec![(NodeId(2), graft(subtree_id()))], 0);
    assert_eq!(tree.update_and_process_changes(update, &mut NoOpHandler), Err(TreeError::DuplicateGraft));
}

#[test]
fn graft_root_tree_panics() {
    let update = root_update(
        vec![(NodeId(0), parent(Role::Window, &[1])), (NodeId(1), graft(TreeId::root()))],
        0,
    );
    assert_eq!(Tree::new(update, false).err(), Some(TreeError::GraftOfRootTree));
}

#[test]
fn graft_root_tree_on_update_panics() {
    let update = root_update(
        vec![(NodeId(0), parent(Role::Window, &[1])), (NodeId(1), node(Role::GenericContainer))],
        0,
    );
    let mut tree = Tree::new(update, false).unwrap();
    let update = plain_update(vec![(NodeId(1), graft(TreeId::root()))], 0);
    assert_eq!(tree.update_and_process_changes(update, &mut NoOpHandler), Err(TreeError::GraftOfRootTree));
}

#[test]
fn node_by_tree_local_id_finds_root_tree_node() {
    let update = root_update(vec![(NodeId(0), parent(Role::Window, &[1])), (NodeId(1), node(Role::Button))], 0);
    let tree = Tree::new(update, false).unwrap();
    let root = tree.state().node_by_tree_local_id(NodeId(0), TreeId::root()).unwrap();
    assert_eq!(root.id(), node_id(0));
    assert_eq!(root.role(), Role::Window);
    let child = tree.state().node_by_tree_local_id(NodeId(1), TreeId::root()).unwrap();
    assert_eq!(child.id(), node_id(1));
    assert_eq!(child.role(), Role::Button);
}

#[test]
fn node_by_tree_local_id_finds_subtree_node() {
    let mut tree = tree_with_graft();
    push_subtree(&mut tree);
    let sub_root = tree.state().node_by_tree_local_id(NodeId(0), subtree_id()).unwrap();
    assert_eq!(sub_root.id(), subtree_node_id(0));
    assert_eq!(sub_root.role(), Role::Document);
    let sub_child = tree.state().node_by_tree_local_id(NodeId(1), subtree_id()).unwrap();
    assert_eq!(sub_child.id(), subtree_node_id(1));
    assert_eq!(sub_child.role(), Role::Paragraph);
    let graft_node = tree.state().node_by_tree_local_id(NodeId(1), TreeId::root()).unwrap();
    assert_eq!(graft_node.id(), node_id(1));
    assert_eq!(graft_node.role(), Role::GenericContainer);
}

#[test]
fn node_by_tree_local_id_returns_none_for_unknown_tree_id() {
    let tree = Tree::new(root_update(vec![(NodeId(0), node(Role::Window))], 0), false).unwrap();
    assert!(tree.state().node_by_tree_local_id(NodeId(0), subtree_id()).is_none());
}

#[test]
fn node_by_tree_local_id_returns_none_for_unknown_local_id() {
    let tree = Tree::new(root_update(vec![(NodeId(0), node(Role::Window))], 0), false).unwrap();
    assert!(tree.state().node_by_tree_local_id(NodeId(999), TreeId::root()).is_none());
}

#[test]
fn subtree_root_parent_is_graft_when_graft_exists_first() {
    let mut tree = tree_with_graft();
    push_subtree(&mut tree);
    let subtree_root = tree.state().node_by_id(subtree_node_id(0)).unwrap();
    assert_eq!(subtree_root.parent_id(), Some(node_id(1)));
    let graft_node = tree.state().node_by_id(node_id(1)).unwrap();
    assert_eq!(graft_node.child_ids(), vec![subtree_node_id(0)]);
}

#[test]
fn subtree_push_without_graft_panics() {
    let mut tree = Tree::new(root_update(vec![(NodeId(0), node(Role::Window))], 0), false).unwrap();
    let update = TreeUpdate {
        nodes: vec![(NodeId(0), node(Role::Document))],
        tree: Some(TreeInfo::new(NodeId(0))),
        tree_id: subtree_id(),
        focus: NodeId(0),
    };
    assert_eq!(tree.update_and_process_changes(update, &mut NoOpHandler), Err(TreeError::SubtreeWithoutGraft));
}

#[test]
fn subtree_update_without_tree_data_panics() {
    let mut tree = tree_with_graft();
    let update = TreeUpdate {
        nodes: vec![(NodeId(0), node(Role::Document))],
        tree: None,
        tree_id: subtree_id(),
        focus: NodeId(0),
    };
    assert_eq!(tree.update_and_process_changes(update, &mut NoOpHandler), Err(TreeError::UnknownSubtree));
}

#[test]
fn subtree_nodes_removed_when_graft_removed() {
    let mut tree = tree_with_graft();
    let subtree_update = TreeUpdate {
        nodes: vec![(NodeId(0), parent(Role::Document, &[1])), (NodeId(1), graft(nested_subtree_id()))],
        tree: Some(TreeInfo::new(NodeId(0))),
        tree_id: subtree_id(),
        focus: NodeId(0),
    };
    tree.update_and_process_changes(subtree_update, &mut NoOpHandler).unwrap();
    let nested_update = TreeUpdate {
        nodes: vec![(NodeId(0), parent(Role::Document, &[1])), (NodeId(1), node(Role::Paragraph))],
        tree: Some(TreeInfo::new(NodeId(0))),
        tree_id: nested_subtree_id(),
        focus: NodeId(0),
    };
    tree.update_and_process_changes(nested_update, &mut NoOpHandler).unwrap();
    assert!(tree.state().node_by_id(subtree_node_id(0)).is_some());
    assert!(tree.state().node_by_id(subtree_node_id(1)).is_some());
    assert!(tree.state().node_by_id(nested_subtree_node_id(0)).is_some());
    assert!(tree.state().node_by_id(nested_subtree_node_id(1)).is_some());
    let update = plain_update(vec![(NodeId(0), parent(Role::Window, &[]))], 0);
    tree.update_and_process_changes(update, &mut NoOpHandler).unwrap();
    assert!(tree.state().node_by_id(subtree_node_id(0)).is_none());
    assert!(tree.state().node_by_id(subtree_node_id(1)).is_none());
    assert!(tree.state().node_by_id(nested_subtree_node_id(0)).is_none());
    assert!(tree.state().node_by_id(nested_subtree_node_id(1)).is_none());
    assert_eq!(tree.state().subtree_root(subtree_id()), None);
    assert_eq!(tree.state().subtree_root(nested_subtree_id()), None);
}

#[test]
fn subtree_nodes_removed_when_graft_tree_id_cleared() {
    let mut tree = tree_with_graft();
    push_subtree(&mut tree);
    assert!(tree.state().node_by_id(subtree_node_id(0)).is_some());
    assert!(tree.state().node_by_id(subtree_node_id(1)).is_some());
    let update = plain_update(vec![(NodeId(1), node(Role::GenericContainer))], 0);
    tree.update_and_process_changes(update, &mut NoOpHandler).unwrap();
    assert!(tree.state().node_by_id(node_id(1)).is_some());
    assert!(tree.state().node_by_id(subtree_node_id(0)).is_none());
    assert!(tree.state().node_by_id(subtree_node_id(1)).is_none());
    assert_eq!(tree.state().subtree_root(subtree_id()), None);
}

#[test]
fn graft_node_has_no_children_when_subtree_not_pushed() {
    let tree = tree_with_graft();
    let graft_node = tree.state().node_by_id(node_id(1)).unwrap();
    assert_eq!(graft_node.child_ids(), vec![]);
    assert_eq!(graft_node.children().len(), 0);
}

#[test]
fn graft_node_with_children_panics() {
    let mut b = NodeBuilder::new(Role::GenericContainer);
    b.set_tree_id(subtree_id());
    b.set_children(vec![NodeId(2)]);
    let bad = b.build(&mut NodeClassSet::new());
    let update = root_update(
        vec![(NodeId(0), parent(Role::Window, &[1])), (NodeId(1), bad), (NodeId(2), node(Role::Button))],
        0,
    );
    assert_eq!(Tree::new(update, false).err(), Some(TreeError::GraftWithChildren));
}

#[test]
fn node_added_called_when_subtree_pushed() {
    let mut tree = tree_with_graft();
    let update = TreeUpdate {
        nodes: vec![
            (NodeId(0), parent(Role::Document, &[1, 2])),
            (NodeId(1), node(Role::Paragraph)),
            (NodeId(2), node(Role::Button)),
        ],
        tree: Some(TreeInfo::new(NodeId(0))),
        tree_id: subtree_id(),
        focus: NodeId(0),
    };
    let mut handler = Recorder::default();
    tree.update_and_process_changes(update, &mut handler).unwrap();
    let added = added(&handler.events);
    assert_eq!(added.len(), 3);
    assert!(added.contains(&subtree_node_id(0)));
    assert!(added.contains(&subtree_node_id(1)));
    assert!(added.contains(&subtree_node_id(2)));
}

#[test]
fn node_removed_called_when_graft_removed() {
    let mut tree = tree_with_graft();
    push_subtree(&mut tree);
    assert!(tree.state().node_by_id(subtree_node_id(0)).is_some());
    assert!(tree.state().node_by_id(subtree_node_id(1)).is_some());
    let mut handler = Recorder::default();
    tree.update_and_process_changes(plain_update(vec![(NodeId(0), parent(Role::Window, &[]))], 0), &mut handler)
        .unwrap();
    let removed = removed(&handler.events);
    assert!(removed.contains(&node_id(1)));
    assert!(removed.contains(&subtree_node_id(0)));
    assert!(removed.contains(&subtree_node_id(1)));
    assert_eq!(removed.len(), 3);
}

#[test]
fn focus_moved_called_when_focus_moves_to_subtree() {
    let update = root_update(vec![(NodeId(0), parent(Role::Window, &[1])), (NodeId(1), graft(subtree_id()))], 0);
    let mut tree = Tree::new(update, true).unwrap();
    let subtree_update = TreeUpdate {
        nodes: vec![(NodeId(0), parent(Role::Document, &[1])), (NodeId(1), node(Role::Button))],
        tree: Some(TreeInfo::new(NodeId(0))),
        tree_id: subtree_id(),
        focus: NodeId(0),
    };
    tree.update_and_process_changes(subtree_update, &mut NoOpHandler).unwrap();
    let mut handler = Recorder::default();
    tree.update_and_process_changes(plain_update(vec![], 1), &mut handler).unwrap();
    let moves: Vec<&Event> = handler.events.iter().filter(|e| matches!(e, Event::FocusMoved(..))).collect();
    assert_eq!(moves.len(), 1);
    assert_eq!(moves[0], &Event::FocusMoved(Some(node_id(0)), Some(subtree_node_id(0))));
    assert_eq!(tree.state().focus_id(), Some(subtree_node_id(0)));
}

#[test]
fn focus_moved_called_when_subtree_focus_changes() {
    let update = root_update(vec![(NodeId(0), parent(Role::Window, &[1])), (NodeId(1), graft(subtree_id()))], 0);
    let mut tree = Tree::new(update, true).unwrap();
    let subtree_update = TreeUpdate {
        nodes: vec![(NodeId(0), parent(Role::Document, &[1])), (NodeId(1), node(Role::Button))],
        tree: Some(TreeInfo::new(NodeId(0))),
        tree_id: subtree_id(),
        focus: NodeId(0),
    };
    tree.update_and_process_changes(subtree_update, &mut NoOpHandler).unwrap();
    tree.update_and_process_changes(plain_update(vec![], 1), &mut NoOpHandler).unwrap();
    assert_eq!(tree.state().focus_id(), Some(subtree_node_id(0)));
    let update = TreeUpdate { nodes: vec![], tree: None, tree_id: subtree_id(), focus: NodeId(1) };
    let mut handler = Recorder::default();
    tree.update_and_process_changes(update, &mut handler).unwrap();
    let moves: Vec<&Event> = handler.events.iter().filter(|e| matches!(e, Event::FocusMoved(..))).collect();
    assert_eq!(moves.len(), 1);
    assert_eq!(moves[0], &Event::FocusMoved(Some(subtree_node_id(0)), Some(subtree_node_id(1))));
}

#[test]
fn focus_returns_focused_node() {
    let update = root_update(vec![(NodeId(0), parent(Role::Window, &[1])), (NodeId(1), node(Role::Button))], 1);
    let tree = Tree::new(update, true).unwrap();
    assert_eq!(tree.state().focus().unwrap().id(), node_id(1));
}

#[test]
fn focus_returns_active_descendant() {
    let mut b = NodeBuilder::new(Role::ListBox);
    b.set_children(vec![NodeId(2)]);
    b.set_active_descendant(NodeId(2));
    let list = b.build(&mut NodeClassSet::new());
    let update = root_update(
        vec![(NodeId(0), parent(Role::Window, &[1])), (NodeId(1), list), (NodeId(2), node(Role::ListBoxOption))],
        1,
    );
    let tree = Tree::new(update, true).unwrap();
    assert_eq!(tree.state().focus().unwrap().id(), node_id(2));
}

#[test]
fn focus_is_none_without_host_focus() {
    let tree = Tree::new(root_update(vec![(NodeId(0), node(Role::Window))], 0), false).unwrap();
    assert!(tree.state().focus().is_none());
    assert_eq!(tree.state().focus_id(), None);
    assert_eq!(tree.state().focus_id_in_tree(), node_id(0));
}

#[test]
fn host_focus_change_is_reported() {
    let update = root_update(vec![(NodeId(0), parent(Role::Window, &[1])), (NodeId(1), node(Role::Button))], 1);
    let mut tree = Tree::new(update, false).unwrap();
    let mut handler = Recorder::default();
    tree.update_host_focus_state_and_process_changes(true, &mut handler).unwrap();
    assert!(handler.events.contains(&Event::FocusMoved(None, Some(node_id(1)))));
    assert!(tree.state().is_host_focused());
}

#[test]
fn duplicate_child_is_refused() {
    let update = root_update(
        vec![(NodeId(0), parent(Role::Window, &[1, 1])), (NodeId(1), node(Role::Button))],
        0,
    );
    assert_eq!(Tree::new(update, false).err(), Some(TreeError::DuplicateChild));
}

#[test]
fn unattached_node_is_refused() {
    let update = root_update(vec![(NodeId(0), node(Role::Window)), (NodeId(5), node(Role::Button))], 0);
    assert_eq!(Tree::new(update, false).err(), Some(TreeError::UnattachedNodes));
}

#[test]
fn missing_child_is_refused() {
    let update = root_update(vec![(NodeId(0), parent(Role::Window, &[3]))], 0);
    assert_eq!(Tree::new(update, false).err(), Some(TreeError::MissingChildren));
}

#[test]
fn missing_focus_is_refused() {
    let update = root_update(vec![(NodeId(0), node(Role::Window))], 9);
    assert_eq!(Tree::new(update, false).err(), Some(TreeError::FocusNotInTree));
}

#[test]
fn later_listing_of_a_node_wins() {
    let update = root_update(
        vec![
            (NodeId(0), parent(Role::Window, &[1])),
            (NodeId(1), named(Role::Button, "first")),
            (NodeId(1), named(Role::Button, "second")),
        ],
        0,
    );
    let tree = Tree::new(update, false).unwrap();
    assert_eq!(tree.state().node_by_id(node_id(1)).unwrap().data().name(), Some("second"));
}

#[test]
fn toolkit_info_is_reported_when_both_name_and_version_are_set() {
    let mut info = TreeInfo::new(NodeId(0));
    info.toolkit_name = Some("ExampleUI".to_string());
    info.toolkit_version = Some("1.2.3".to_string());
    let update = TreeUpdate {
        nodes: vec![(NodeId(0), node(Role::Window))],
        tree: Some(info),
        tree_id: TreeId::root(),
        focus: NodeId(0),
    };
    let tree = Tree::new(update, false).unwrap();
    assert_eq!(tree.state().toolkit_name(), "ExampleUI");
    assert_eq!(tree.state().toolkit_version(), Some("1.2.3"));
}

#[test]
fn toolkit_version_is_none_when_only_name_is_set() {
    let mut info = TreeInfo::new(NodeId(0));
    info.toolkit_name = Some("ExampleUI".to_string());
    let update = TreeUpdate {
        nodes: vec![(NodeId(0), node(Role::Window))],
        tree: Some(info),
        tree_id: TreeId::root(),
        focus: NodeId(0),
    };
    let tree = Tree::new(update, false).unwrap();
    assert_eq!(tree.state().toolkit_name(), "ExampleUI");
    assert_eq!(tree.state().toolkit_version(), None);
}

#[test]
fn toolkit_name_falls_back_to_accesskit_when_unset() {
    let tree = Tree::new(root_update(vec![(NodeId(0), node(Role::Window))], 0), false).unwrap();
    assert_eq!(tree.state().toolkit_name(), "AccessKit");
    assert_eq!(tree.state().toolkit_version(), None);
}

#[test]
fn toolkit_version_is_suppressed_when_name_is_unset() {
    let mut info = TreeInfo::new(NodeId(0));
    info.toolkit_version = Some("1.2.3".to_string());
    let update = TreeUpdate {
        nodes: vec![(NodeId(0), node(Role::Window))],
        tree: Some(info),
        tree_id: TreeId::root(),
        focus: NodeId(0),
    };
    let tree = Tree::new(update, false).unwrap();
    assert_eq!(tree.state().toolkit_name(), "AccessKit");
    assert_eq!(tree.state().toolkit_version(), None);
}

#[test]
fn locate_node_gives_local_and_tree_ids() {
    let mut tree = tree_with_graft();
    push_subtree(&mut tree);
    assert_eq!(tree.state().locate_node(subtree_node_id(1)), Some((NodeId(1), subtree_id())));
    assert_eq!(tree.state().locate_node(node_id(0)), Some((NodeId(0), TreeId::root())));
    assert_eq!(tree.state().locate_node(node_id(7)), None);
}

fn nested_subtree_id() -> TreeId {
    TreeId(2)
}

fn nested_subtree_node_id(n: u64) -> FullNodeId {
    FullNodeId::new(NodeId(n), TreeIndex(2))
}

fn nested_tree(subtree_focus: u64, nested_children: &[u64]) -> Tree {
    let update = root_update(vec![(NodeId(0), parent(Role::Window, &[1])), (NodeId(1), graft(subtree_id()))], 0);
    let mut tree = Tree::new(update, true).unwrap();
    let subtree_update = TreeUpdate {
        nodes: vec![(NodeId(0), parent(Role::Document, &[1])), (NodeId(1), graft(nested_subtree_id()))],
        tree: Some(TreeInfo::new(NodeId(0))),
        tree_id: subtree_id(),
        focus: NodeId(subtree_focus),
    };
    tree.update_and_process_changes(subtree_update, &mut NoOpHandler).unwrap();
    let mut nodes = vec![(NodeId(0), parent(Role::Group, nested_children))];
    for c in nested_children {
        nodes.push((NodeId(*c), node(Role::Button)));
    }
    let nested_update = TreeUpdate {
        nodes,
        tree: Some(TreeInfo::new(NodeId(0))),
        tree_id: nested_subtree_id(),
        focus: NodeId(1),
    };
    tree.update_and_process_changes(nested_update, &mut NoOpHandler).unwrap();
    tree
}

#[test]
fn nested_subtree_focus_follows_graft_chain() {
    let mut tree = nested_tree(0, &[1]);
    tree.update_and_process_changes(plain_update(vec![], 1), &mut NoOpHandler).unwrap();
    let update = TreeUpdate { nodes: vec![], tree: None, tree_id: subtree_id(), focus: NodeId(1) };
    tree.update_and_process_changes(update, &mut NoOpHandler).unwrap();
    assert_eq!(tree.state().focus_id(), Some(nested_subtree_node_id(1)));
}

#[test]
fn nested_subtree_focus_update_changes_effective_focus() {
    let mut tree = nested_tree(1, &[1, 2]);
    tree.update_and_process_changes(plain_update(vec![], 1), &mut NoOpHandler).unwrap();
    assert_eq!(tree.state().focus_id(), Some(nested_subtree_node_id(1)));
    let update = TreeUpdate { nodes: vec![], tree: None, tree_id: nested_subtree_id(), focus: NodeId(2) };
    tree.update_and_process_changes(update, &mut NoOpHandler).unwrap();
    assert_eq!(tree.state().focus_id(), Some(nested_subtree_node_id(2)));
}

#[test]
fn removing_nested_subtree_while_intermediate_focus_on_graft_panics() {
    let update = root_update(vec![(NodeId(0), parent(Role::Window, &[1])), (NodeId(1), graft(subtree_id()))], 1);
    assert_eq!(Tree::new(update, true).err(), Some(TreeError::FocusOnEmptyGraft));
}

#[test]
fn subtree_update_without_tree_preserves_root() {
    let mut tree = tree_with_graft();
    let subtree_update = TreeUpdate {
        nodes: vec![(NodeId(0), parent(Role::Document, &[1])), (NodeId(1), named(Role::Paragraph, "original"))],
        tree: Some(TreeInfo::new(NodeId(0))),
        tree_id: subtree_id(),
        focus: NodeId(0),
    };
    tree.update_and_process_changes(subtree_update, &mut NoOpHandler).unwrap();
    let mut handler = Recorder::default();
    let update = TreeUpdate {
        nodes: vec![(NodeId(1), named(Role::Paragraph, "modified"))],
        tree: None,
        tree_id: subtree_id(),
        focus: NodeId(0),
    };
    tree.update_and_process_changes(update, &mut handler).unwrap();
    let subtree_root = tree.state().node_by_id(subtree_node_id(0)).unwrap();
    assert_eq!(subtree_root.role(), Role::Document);
    assert_eq!(subtree_root.parent_id(), Some(node_id(1)));
    let graft_node = tree.state().node_by_id(node_id(1)).unwrap();
    assert_eq!(graft_node.child_ids().first().copied(), Some(subtree_node_id(0)));
    let child = tree.state().node_by_id(subtree_node_id(1)).unwrap();
    assert_eq!(child.label().as_deref(), Some("modified"));
    assert!(removed(&handler.events).is_empty());
    assert!(added(&handler.events).is_empty());
    assert!(updated(&handler.events).contains(&subtree_node_id(1)));
    assert!(!updated(&handler.events).contains(&subtree_node_id(0)));
}

#[test]
fn node_updated_called_when_subtree_reparented() {
    let update = root_update(
        vec![
            (NodeId(0), parent(Role::Window, &[1, 2])),
            (NodeId(1), graft(subtree_id())),
            (NodeId(2), node(Role::GenericContainer)),
        ],
        0,
    );
    let mut tree = Tree::new(update, false).unwrap();
    let subtree_update = TreeUpdate {
        nodes: vec![(NodeId(0), node(Role::Document))],
        tree: Some(TreeInfo::new(NodeId(0))),
        tree_id: subtree_id(),
        focus: NodeId(0),
    };
    tree.update_and_process_changes(subtree_update, &mut NoOpHandler).unwrap();
    assert_eq!(tree.state().node_by_id(subtree_node_id(0)).unwrap().parent().unwrap().id(), node_id(1));
    let mut handler = Recorder::default();
    let update = plain_update(
        vec![(NodeId(1), node(Role::GenericContainer)), (NodeId(2), graft(subtree_id()))],
        0,
    );
    tree.update_and_process_changes(update, &mut handler).unwrap();
    assert!(updated(&handler.events).contains(&subtree_node_id(0)));
    assert!(handler.updated_parents.contains(&(subtree_node_id(0), Some(node_id(1)), Some(node_id(2)))));
    assert_eq!(tree.state().node_by_id(subtree_node_id(0)).unwrap().parent().unwrap().id(), node_id(2));
}

#[test]
fn read_only_and_invocable_states() {
    let mut checkbox = NodeBuilder::new(Role::CheckBox);
    checkbox.add_action(accesskit::roles::Action::Default);
    let mut button = NodeBuilder::new(Role::Button);
    button.add_action(accesskit::roles::Action::Default);
    let mut classes = NodeClassSet::new();
    let update = root_update(
        vec![
            (NodeId(0), parent(Role::Window, &[1, 2, 3])),
            (NodeId(1), checkbox.build(&mut classes)),
            (NodeId(2), button.build(&mut classes)),
            (NodeId(3), node(Role::Image)),
        ],
        0,
    );
    let tree = Tree::new(update, false).unwrap();
    let state = tree.state();
    let checkbox = state.node_by_id(node_id(1)).unwrap();
    let button = state.node_by_id(node_id(2)).unwrap();
    let image = state.node_by_id(node_id(3)).unwrap();
    assert!(!checkbox.is_read_only());
    assert!(button.is_read_only());
    assert!(image.is_read_only());
    assert!(button.is_invocable());
    assert!(!image.is_invocable());
    assert!(image.should_have_read_only_state_by_default());
    assert!(checkbox.is_read_only_supported());
}

#[test]
fn live_setting_comes_from_ancestors() {
    let mut region = NodeBuilder::new(Role::Group);
    region.set_children(vec![NodeId(2)]);
    region.set_live(accesskit::roles::Live::Polite);
    let mut classes = NodeClassSet::new();
    let update = root_update(
        vec![
            (NodeId(0), parent(Role::Window, &[1, 3])),
            (NodeId(1), region.build(&mut classes)),
            (NodeId(2), node(Role::Label)),
            (NodeId(3), node(Role::Label)),
        ],
        0,
    );
    let tree = Tree::new(update, false).unwrap();
    let state = tree.state();
    assert_eq!(state.node_by_id(node_id(2)).unwrap().live(), accesskit::roles::Live::Polite);
    assert_eq!(state.node_by_id(node_id(3)).unwrap().live(), accesskit::roles::Live::Off);
}

#[test]
fn active_dialog_is_nearest_dialog_above_focus() {
    let update = root_update(
        vec![
            (NodeId(0), parent(Role::Window, &[1])),
            (NodeId(1), parent(Role::Dialog, &[2])),
            (NodeId(2), node(Role::Button)),
        ],
        2,
    );
    let tree = Tree::new(update, true).unwrap();
    assert_eq!(tree.state().active_dialog().unwrap().id(), node_id(1));
    let tree = Tree::new(
        root_update(vec![(NodeId(0), parent(Role::Window, &[1])), (NodeId(1), node(Role::Button))], 1),
        true,
    )
    .unwrap();
    assert!(tree.state().active_dialog().is_none());
}

#[test]
fn nested_subtree_root_lookup_for_focus_only_update() {
    let update = root_update(
        vec![(NodeId(0), parent(Role::Window, &[1])), (NodeId(1), graft(subtree_id()))],
        0,
    );
    let mut tree = Tree::new(update, true).unwrap();
    let subtree_update = TreeUpdate {
        nodes: vec![
            (NodeId(0), parent(Role::Document, &[1, 2])),
            (NodeId(1), graft(nested_subtree_id())),
            (NodeId(2), node(Role::Button)),
        ],
        tree: Some(TreeInfo::new(NodeId(0))),
        tree_id: subtree_id(),
        focus: NodeId(0),
    };
    tree.update_and_process_changes(subtree_update, &mut NoOpHandler).unwrap();
    let nested_update = TreeUpdate {
        nodes: vec![(NodeId(0), parent(Role::Group, &[1])), (NodeId(1), node(Role::Button))],
        tree: Some(TreeInfo::new(NodeId(0))),
        tree_id: nested_subtree_id(),
        focus: NodeId(0),
    };
    tree.update_and_process_changes(nested_update, &mut NoOpHandler).unwrap();
    let update = TreeUpdate { nodes: vec![], tree: None, tree_id: subtree_id(), focus: NodeId(2) };
    tree.update_and_process_changes(update, &mut NoOpHandler).unwrap();
    assert_eq!(tree.state().subtree_focus(subtree_id()).unwrap(), subtree_node_id(2));
}

fn added(events: &[Event]) -> Vec<FullNodeId> {
    events.iter().filter_map(|e| if let Event::Added(id) = e { Some(*id) } else { None }).collect()
}

fn removed(events: &[Event]) -> Vec<FullNodeId> {
    events.iter().filter_map(|e| if let Event::Removed(id) = e { Some(*id) } else { None }).collect()
}

fn updated(events: &[Event]) -> Vec<FullNodeId> {
    events.iter().filter_map(|e| if let Event::Updated(_, id) = e { Some(*id) } else { None }).collect()
}

#[test]
fn subtree_root_change_updates_graft_and_parent() {
    let mut tree = tree_with_graft();
    push_subtree(&mut tree);
    let mut handler = Recorder::default();
    let subtree_update = TreeUpdate {
        nodes: vec![(NodeId(2), parent(Role::Article, &[3])), (NodeId(3), node(Role::Button))],
        tree: Some(TreeInfo::new(NodeId(2))),
        tree_id: subtree_id(),
        focus: NodeId(2),
    };
    tree.update_and_process_changes(subtree_update, &mut handler).unwrap();

    let graft_node = tree.state().node_by_id(node_id(1)).unwrap();
    let children = graft_node.child_ids();
    assert_eq!(children.len(), 1);
    assert_eq!(children[0], subtree_node_id(2));

    let new_subtree_root = tree.state().node_by_id(subtree_node_id(2)).unwrap();
    assert_eq!(new_subtree_root.parent_id(), Some(node_id(1)));
    assert_eq!(new_subtree_root.role(), Role::Article);

    assert!(tree.state().node_by_id(subtree_node_id(0)).is_none());
    assert!(tree.state().node_by_id(subtree_node_id(1)).is_none());
    assert!(tree.state().node_by_id(subtree_node_id(2)).is_some());
    assert!(tree.state().node_by_id(subtree_node_id(3)).is_some());

    assert!(removed(&handler.events).contains(&subtree_node_id(0)));
    assert!(removed(&handler.events).contains(&subtree_node_id(1)));
    assert!(added(&handler.events).contains(&subtree_node_id(2)));
    assert!(added(&handler.events).contains(&subtree_node_id(3)));
}

#[test]
fn subtree_root_change_to_existing_child() {
    let mut tree = tree_with_graft();
    let subtree_update = TreeUpdate {
        nodes: vec![
            (NodeId(0), parent(Role::Document, &[1])),
            (NodeId(1), parent(Role::Article, &[2])),
            (NodeId(2), node(Role::Paragraph)),
        ],
        tree: Some(TreeInfo::new(NodeId(0))),
        tree_id: subtree_id(),
        focus: NodeId(0),
    };
    tree.update_and_process_changes(subtree_update, &mut NoOpHandler).unwrap();

    let graft_node = tree.state().node_by_id(node_id(1)).unwrap();
    assert_eq!(graft_node.child_ids().first().copied(), Some(subtree_node_id(0)));
    let old_root = tree.state().node_by_id(subtree_node_id(0)).unwrap();
    assert_eq!(old_root.role(), Role::Document);
    assert_eq!(old_root.parent_id(), Some(node_id(1)));
    let child = tree.state().node_by_id(subtree_node_id(1)).unwrap();
    assert_eq!(child.role(), Role::Article);
    assert_eq!(child.parent_id(), Some(subtree_node_id(0)));
    let grandchild = tree.state().node_by_id(subtree_node_id(2)).unwrap();
    assert_eq!(grandchild.parent_id(), Some(subtree_node_id(1)));

    let mut handler = Recorder::default();
    let subtree_update = TreeUpdate {
        nodes: vec![(NodeId(1), parent(Role::Article, &[2])), (NodeId(2), node(Role::Paragraph))],
        tree: Some(TreeInfo::new(NodeId(1))),
        tree_id: subtree_id(),
        focus: NodeId(1),
    };
    tree.update_and_process_changes(subtree_update, &mut handler).unwrap();

    let graft_node = tree.state().node_by_id(node_id(1)).unwrap();
    let children = graft_node.child_ids();
    assert_eq!(children.len(), 1);
    assert_eq!(children[0], subtree_node_id(1));
    let new_root = tree.state().node_by_id(subtree_node_id(1)).unwrap();
    assert_eq!(new_root.parent_id(), Some(node_id(1)));
    assert_eq!(new_root.role(), Role::Article);
    assert!(tree.state().node_by_id(subtree_node_id(0)).is_none());
    let grandchild = tree.state().node_by_id(subtree_node_id(2)).unwrap();
    assert_eq!(grandchild.parent_id(), Some(subtree_node_id(1)));

    assert!(removed(&handler.events).contains(&subtree_node_id(0)));
    assert!(updated(&handler.events).contains(&subtree_node_id(1)));
    assert!(!added(&handler.events).contains(&subtree_node_id(1)));
    assert!(!added(&handler.events).contains(&subtree_node_id(2)));
}

#[test]
fn subtree_root_change_to_new_parent_of_old_root() {
    let mut tree = tree_with_graft();
    push_subtree(&mut tree);
    let mut handler = Recorder::default();
    let subtree_update = TreeUpdate {
        nodes: vec![
            (NodeId(2), parent(Role::Article, &[0])),
            (NodeId(0), parent(Role::Document, &[1])),
            (NodeId(1), node(Role::Paragraph)),
        ],
        tree: Some(TreeInfo::new(NodeId(2))),
        tree_id: subtree_id(),
        focus: NodeId(2),
    };
    tree.update_and_process_changes(subtree_update, &mut handler).unwrap();

    let graft_node = tree.state().node_by_id(node_id(1)).unwrap();
    let children = graft_node.child_ids();
    assert_eq!(children.len(), 1);
    assert_eq!(children[0], subtree_node_id(2));
    let new_root = tree.state().node_by_id(subtree_node_id(2)).unwrap();
    assert_eq!(new_root.parent_id(), Some(node_id(1)));
    assert_eq!(new_root.role(), Role::Article);
    let old_root = tree.state().node_by_id(subtree_node_id(0)).unwrap();
    assert_eq!(old_root.parent_id(), Some(subtree_node_id(2)));
    assert_eq!(old_root.role(), Role::Document);
    let grandchild = tree.state().node_by_id(subtree_node_id(1)).unwrap();
    assert_eq!(grandchild.parent_id(), Some(subtree_node_id(0)));

    assert!(added(&handler.events).contains(&subtree_node_id(2)));
    assert!(updated(&handler.events).contains(&subtree_node_id(0)));
    assert!(!removed(&handler.events).contains(&subtree_node_id(0)));
    assert!(!removed(&handler.events).contains(&subtree_node_id(1)));
}

#[test]
fn focus_moved_when_active_descendant_changes() {
    let mut list = NodeBuilder::new(Role::ListBox);
    list.set_children(vec![NodeId(2), NodeId(3)]);
    list.set_active_descendant(NodeId(2));
    let mut classes = NodeClassSet::new();
    let update = TreeUpdate {
        nodes: vec![
            (NodeId(0), parent(Role::Window, &[1])),
            (NodeId(1), list.build(&mut classes)),
            (NodeId(2), node(Role::ListBoxOption)),
            (NodeId(3), node(Role::ListBoxOption)),
        ],
        tree: Some(TreeInfo::new(NodeId(0))),
        tree_id: TreeId::root(),
        focus: NodeId(1),
    };
    let mut tree = Tree::new(update, true).unwrap();

    let mut handler = Recorder::default();
    let mut list = NodeBuilder::new(Role::ListBox);
    list.set_children(vec![NodeId(2), NodeId(3)]);
    list.set_active_descendant(NodeId(3));
    let update = TreeUpdate {
        nodes: vec![(NodeId(1), list.build(&mut classes))],
        tree: None,
        tree_id: TreeId::root(),
        focus: NodeId(1),
    };
    tree.update_and_process_changes(update, &mut handler).unwrap();

    let moves: Vec<&Event> = handler.events.iter().filter(|e| matches!(e, Event::FocusMoved(_, _))).collect();
    assert_eq!(moves.len(), 1);
    assert_eq!(moves[0], &Event::FocusMoved(Some(node_id(2)), Some(node_id(3))));
}

#[test]
fn adding_an_action_twice_matches_adding_it_once() {
    let mut once = NodeBuilder::new(Role::Button);
    once.add_action(accesskit::roles::Action::Focus);
    let mut twice = NodeBuilder::new(Role::Button);
    twice.add_action(accesskit::roles::Action::Focus);
    twice.add_action(accesskit::roles::Action::Focus);
    assert_eq!(once.supports_action(accesskit::roles::Action::Focus), twice.supports_action(accesskit::roles::Action::Focus));
    assert_eq!(once.supports_action(accesskit::roles::Action::Default), twice.supports_action(accesskit::roles::Action::Default));
    assert!(twice.supports_action(accesskit::roles::Action::Focus));
}

#[test]
fn adding_then_removing_an_action_restores_the_builder() {
    let mut builder = NodeBuilder::new(Role::Button);
    builder.add_action(accesskit::roles::Action::Default);
    builder.add_action(accesskit::roles::Action::Focus);
    builder.remove_action(accesskit::roles::Action::Focus);
    assert!(builder.supports_action(accesskit::roles::Action::Default));
    assert!(!builder.supports_action(accesskit::roles::Action::Focus));
}
