use accesskit::ids::{FullNodeId, TreeIndex};
use accesskit::roles::Role;
use accesskit::schema::{Node, NodeBuilder, NodeClassSet, NodeId, Tree as TreeInfo, TreeId, TreeUpdate};
use accesskit::tree::Tree;

fn nid(id: NodeId) -> FullNodeId {
    FullNodeId::new(id, TreeIndex(0))
}

fn finish(b: NodeBuilder, classes: &mut NodeClassSet) -> Node {
    b.build(classes)
}

fn with_children(role: Role, children: Vec<NodeId>, classes: &mut NodeClassSet) -> Node {
    let mut b = NodeBuilder::new(role);
    b.set_children(children);
    finish(b, classes)
}

fn with_child(role: Role, child: NodeId, classes: &mut NodeClassSet) -> Node {
    let mut b = NodeBuilder::new(role);
    b.push_child(child);
    finish(b, classes)
}

fn label_with_value(value: &str, classes: &mut NodeClassSet) -> Node {
    let mut b = NodeBuilder::new(Role::Label);
    b.set_value(value.to_string());
    finish(b, classes)
}

#[test]
fn no_label_or_labelled_by() {
    let mut classes = NodeClassSet::new();
    let update = TreeUpdate {
        nodes: vec![
            (NodeId(0), with_children(Role::Window, vec![NodeId(1)], &mut classes)),
            (NodeId(1), finish(NodeBuilder::new(Role::Button), &mut classes)),
        ],
        tree: Some(TreeInfo::new(NodeId(0))),
        tree_id: TreeId::root(),
        focus: NodeId(0),
    };
    let tree = Tree::new(update, false).unwrap();
    assert_eq!(None, tree.state().node_by_id(nid(NodeId(1))).unwrap().label());
}

#[test]
fn label_from_labelled_by() {
    const LABEL_1: &str = "Check email every";
    const LABEL_2: &str = "minutes";
    let mut classes = NodeClassSet::new();
    let update = TreeUpdate {
        nodes: vec![
            (
                NodeId(0),
                with_children(Role::Window, vec![NodeId(1), NodeId(2), NodeId(3), NodeId(4)], &mut classes),
            ),
            (NodeId(1), {
                let mut b = NodeBuilder::new(Role::CheckBox);
                b.set_labelled_by(vec![NodeId(2), NodeId(4)]);
                finish(b, &mut classes)
            }),
            (NodeId(2), label_with_value(LABEL_1, &mut classes)),
            (NodeId(3), {
                let mut b = NodeBuilder::new(Role::TextInput);
                b.push_labelled_by(NodeId(4));
                finish(b, &mut classes)
            }),
            (NodeId(4), label_with_value(LABEL_2, &mut classes)),
        ],
        tree: Some(TreeInfo::new(NodeId(0))),
        tree_id: TreeId::root(),
        focus: NodeId(0),
    };
    let tree = Tree::new(update, false).unwrap();
    assert_eq!(
        Some([LABEL_1, LABEL_2].join(" ")),
        tree.state().node_by_id(nid(NodeId(1))).unwrap().label()
    );
    assert_eq!(
        Some(LABEL_2.to_string()),
        tree.state().node_by_id(nid(NodeId(3))).unwrap().label()
    );
}

#[test]
fn label_from_descendant_label() {
    const ROOT_ID: NodeId = NodeId(0);
    const DEFAULT_BUTTON_ID: NodeId = NodeId(1);
    const DEFAULT_BUTTON_LABEL_ID: NodeId = NodeId(2);
    const LINK_ID: NodeId = NodeId(3);
    const LINK_LABEL_CONTAINER_ID: NodeId = NodeId(4);
    const LINK_LABEL_ID: NodeId = NodeId(5);
    const CHECKBOX_ID: NodeId = NodeId(6);
    const CHECKBOX_LABEL_ID: NodeId = NodeId(7);
    const RADIO_BUTTON_ID: NodeId = NodeId(8);
    const RADIO_BUTTON_LABEL_ID: NodeId = NodeId(9);
    const MENU_BUTTON_ID: NodeId = NodeId(10);
    const MENU_BUTTON_LABEL_ID: NodeId = NodeId(11);
    const MENU_ID: NodeId = NodeId(12);
    const MENU_ITEM_ID: NodeId = NodeId(13);
    const MENU_ITEM_LABEL_ID: NodeId = NodeId(14);
    const MENU_ITEM_CHECKBOX_ID: NodeId = NodeId(15);
    const MENU_ITEM_CHECKBOX_LABEL_ID: NodeId = NodeId(16);
    const MENU_ITEM_RADIO_ID: NodeId = NodeId(17);
    const MENU_ITEM_RADIO_LABEL_ID: NodeId = NodeId(18);

    const DEFAULT_BUTTON_LABEL: &str = "Play";
    const LINK_LABEL: &str = "Watch in browser";
    const CHECKBOX_LABEL: &str = "Resume from previous position";
    const RADIO_BUTTON_LABEL: &str = "Normal speed";
    const MENU_BUTTON_LABEL: &str = "More";
    const MENU_ITEM_LABEL: &str = "Share";
    const MENU_ITEM_CHECKBOX_LABEL: &str = "Apply volume processing";
    const MENU_ITEM_RADIO_LABEL: &str = "Maximize loudness for noisy environment";

    let mut classes = NodeClassSet::new();
    let update = TreeUpdate {
        nodes: vec![
            (
                ROOT_ID,
                with_children(
                    Role::Window,
                    vec![DEFAULT_BUTTON_ID, LINK_ID, CHECKBOX_ID, RADIO_BUTTON_ID, MENU_BUTTON_ID, MENU_ID],
                    &mut classes,
                ),
            ),
            (DEFAULT_BUTTON_ID, with_child(Role::DefaultButton, DEFAULT_BUTTON_LABEL_ID, &mut classes)),
            (DEFAULT_BUTTON_LABEL_ID, {
                let mut b = NodeBuilder::new(Role::Image);
                b.set_name(DEFAULT_BUTTON_LABEL.to_string());
                finish(b, &mut classes)
            }),
            (LINK_ID, with_child(Role::Link, LINK_LABEL_CONTAINER_ID, &mut classes)),
            (LINK_LABEL_CONTAINER_ID, with_child(Role::GenericContainer, LINK_LABEL_ID, &mut classes)),
            (LINK_LABEL_ID, label_with_value(LINK_LABEL, &mut classes)),
            (CHECKBOX_ID, with_child(Role::CheckBox, CHECKBOX_LABEL_ID, &mut classes)),
            (CHECKBOX_LABEL_ID, label_with_value(CHECKBOX_LABEL, &mut classes)),
            (RADIO_BUTTON_ID, with_child(Role::RadioButton, RADIO_BUTTON_LABEL_ID, &mut classes)),
            (RADIO_BUTTON_LABEL_ID, label_with_value(RADIO_BUTTON_LABEL, &mut classes)),
            (MENU_BUTTON_ID, with_child(Role::Button, MENU_BUTTON_LABEL_ID, &mut classes)),
            (MENU_BUTTON_LABEL_ID, label_with_value(MENU_BUTTON_LABEL, &mut classes)),
            (
                MENU_ID,
                with_children(
                    Role::Menu,
                    vec![MENU_ITEM_ID, MENU_ITEM_CHECKBOX_ID, MENU_ITEM_RADIO_ID],
                    &mut classes,
                ),
            ),
            (MENU_ITEM_ID, with_child(Role::MenuItem, MENU_ITEM_LABEL_ID, &mut classes)),
            (MENU_ITEM_LABEL_ID, label_with_value(MENU_ITEM_LABEL, &mut classes)),
            (MENU_ITEM_CHECKBOX_ID, with_child(Role::MenuItemCheckBox, MENU_ITEM_CHECKBOX_LABEL_ID, &mut classes)),
            (MENU_ITEM_CHECKBOX_LABEL_ID, label_with_value(MENU_ITEM_CHECKBOX_LABEL, &mut classes)),
            (MENU_ITEM_RADIO_ID, with_child(Role::MenuItemRadio, MENU_ITEM_RADIO_LABEL_ID, &mut classes)),
            (MENU_ITEM_RADIO_LABEL_ID, label_with_value(MENU_ITEM_RADIO_LABEL, &mut classes)),
        ],
        tree: Some(TreeInfo::new(ROOT_ID)),
        tree_id: TreeId::root(),
        focus: ROOT_ID,
    };
    let tree = Tree::new(update, false).unwrap();
    let state = tree.state();
    let label_of = |id: NodeId| state.node_by_id(nid(id)).unwrap().label();
    assert_eq!(Some(DEFAULT_BUTTON_LABEL.to_string()), label_of(DEFAULT_BUTTON_ID));
    assert_eq!(Some(LINK_LABEL.to_string()), label_of(LINK_ID));
    assert_eq!(Some(CHECKBOX_LABEL.to_string()), label_of(CHECKBOX_ID));
    assert_eq!(Some(RADIO_BUTTON_LABEL.to_string()), label_of(RADIO_BUTTON_ID));
    assert_eq!(Some(MENU_BUTTON_LABEL.to_string()), label_of(MENU_BUTTON_ID));
    assert_eq!(Some(MENU_ITEM_LABEL.to_string()), label_of(MENU_ITEM_ID));
    assert_eq!(Some(MENU_ITEM_CHECKBOX_LABEL.to_string()), label_of(MENU_ITEM_CHECKBOX_ID));
    assert_eq!(Some(MENU_ITEM_RADIO_LABEL.to_string()), label_of(MENU_ITEM_RADIO_ID));
}

#[test]
fn labelled_by_skips_labels_that_are_not_stored() {
    let mut classes = NodeClassSet::new();
    let update = TreeUpdate {
        nodes: vec![
            (NodeId(0), with_children(Role::Window, vec![NodeId(1), NodeId(2)], &mut classes)),
            (NodeId(1), {
                let mut b = NodeBuilder::new(Role::TextInput);
                b.set_labelled_by(vec![NodeId(7), NodeId(2)]);
                finish(b, &mut classes)
            }),
            (NodeId(2), label_with_value("Search", &mut classes)),
        ],
        tree: Some(TreeInfo::new(NodeId(0))),
        tree_id: TreeId::root(),
        focus: NodeId(0),
    };
    let tree = Tree::new(update, false).unwrap();
    let node = tree.state().node_by_id(nid(NodeId(1))).unwrap();
    let labels = node.labelled_by();
    assert_eq!(1, labels.len());
    assert_eq!(NodeId(2), labels[0].id().to_components().0);
    assert_eq!(Some("Search".to_string()), node.label());
}

#[test]
fn name_takes_precedence_over_labelled_by() {
    let mut classes = NodeClassSet::new();
    let update = TreeUpdate {
        nodes: vec![
            (NodeId(0), with_children(Role::Window, vec![NodeId(1), NodeId(2)], &mut classes)),
            (NodeId(1), {
                let mut b = NodeBuilder::new(Role::Button);
                b.set_name("OK".to_string());
                b.push_labelled_by(NodeId(2));
                finish(b, &mut classes)
            }),
            (NodeId(2), label_with_value("Cancel", &mut classes)),
        ],
        tree: Some(TreeInfo::new(NodeId(0))),
        tree_id: TreeId::root(),
        focus: NodeId(0),
    };
    let tree = Tree::new(update, false).unwrap();
    assert_eq!(Some("OK".to_string()), tree.state().node_by_id(nid(NodeId(1))).unwrap().label());
}
