use accesskit::ids::TreeIndex;
use accesskit::roles::Role;
use accesskit::schema::{NodeBuilder, NodeClassSet, NodeId, TextPosition, Tree as TreeInfo, TreeId, TreeUpdate};
use accesskit::text::InnerPosition;
use accesskit::tree::Tree;

// A text input holding "hello world" on one line, split into two boxes:
// "hello " (words "hello ") and "world" (word "world").
fn text_tree() -> Tree {
    let mut input = NodeBuilder::new(Role::TextInput);
    input.set_children(vec![NodeId(1), NodeId(2)]);
    let mut first = NodeBuilder::new(Role::InlineTextBox);
    first.set_character_lengths(vec![1, 1, 1, 1, 1, 1]);
    first.set_word_lengths(vec![6]);
    first.set_next_on_line(NodeId(2));
    let mut second = NodeBuilder::new(Role::InlineTextBox);
    second.set_character_lengths(vec![1, 1, 1, 1, 1]);
    second.set_word_lengths(vec![5]);
    second.set_previous_on_line(NodeId(1));
    let mut classes = NodeClassSet::new();
    let update = TreeUpdate {
        nodes: vec![
            (NodeId(0), input.build(&mut classes)),
            (NodeId(1), first.build(&mut classes)),
            (NodeId(2), second.build(&mut classes)),
        ],
        tree: Some(TreeInfo::new(NodeId(0))),
        tree_id: TreeId::root(),
        focus: NodeId(0),
    };
    Tree::new(update, false).unwrap()
}

// A single box "one two three" with words of 4, 4 and 5 characters.
fn words_tree() -> Tree {
    let mut input = NodeBuilder::new(Role::TextInput);
    input.set_children(vec![NodeId(1)]);
    let mut text = NodeBuilder::new(Role::InlineTextBox);
    text.set_character_lengths(vec![1; 13]);
    text.set_word_lengths(vec![4, 4, 5]);
    let mut classes = NodeClassSet::new();
    let update = TreeUpdate {
        nodes: vec![(NodeId(0), input.build(&mut classes)), (NodeId(1), text.build(&mut classes))],
        tree: Some(TreeInfo::new(NodeId(0))),
        tree_id: TreeId::root(),
        focus: NodeId(0),
    };
    Tree::new(update, false).unwrap()
}

fn at<'a>(tree: &'a Tree, node: u64, index: usize) -> InnerPosition<'a> {
    InnerPosition::upgrade(tree.state(), TextPosition { node: NodeId(node), character_index: index }, TreeIndex(0))
        .unwrap()
}

#[test]
fn upgrade_checks_role_and_index() {
    let tree = text_tree();
    let state = tree.state();
    let ok = TextPosition { node: NodeId(1), character_index: 6 };
    assert!(InnerPosition::upgrade(state, ok, TreeIndex(0)).is_some());
    let past_end = TextPosition { node: NodeId(1), character_index: 7 };
    assert!(InnerPosition::upgrade(state, past_end, TreeIndex(0)).is_none());
    let not_a_box = TextPosition { node: NodeId(0), character_index: 0 };
    assert!(InnerPosition::upgrade(state, not_a_box, TreeIndex(0)).is_none());
    let missing = TextPosition { node: NodeId(9), character_index: 0 };
    assert!(InnerPosition::upgrade(state, missing, TreeIndex(0)).is_none());
}

#[test]
fn word_starts() {
    let tree = words_tree();
    let starts: Vec<usize> = (0..=13).filter(|i| at(&tree, 1, *i).is_word_start()).collect();
    assert_eq!(starts, vec![0, 4, 8]);
}

#[test]
fn previous_word_start_and_word_end() {
    let tree = words_tree();
    assert_eq!(at(&tree, 1, 6).previous_word_start().character_index, 4);
    assert_eq!(at(&tree, 1, 4).previous_word_start().character_index, 0);
    assert_eq!(at(&tree, 1, 0).previous_word_start().character_index, 0);
    assert_eq!(at(&tree, 1, 13).previous_word_start().character_index, 8);
    assert_eq!(at(&tree, 1, 0).word_end().character_index, 4);
    assert_eq!(at(&tree, 1, 4).word_end().character_index, 8);
    assert_eq!(at(&tree, 1, 9).word_end().character_index, 13);
    assert_eq!(at(&tree, 1, 13).word_end().character_index, 13);
}

#[test]
fn box_and_line_boundaries() {
    let tree = text_tree();
    assert!(at(&tree, 1, 0).is_box_start());
    assert!(at(&tree, 1, 0).is_line_start());
    assert!(at(&tree, 2, 0).is_box_start());
    assert!(!at(&tree, 2, 0).is_line_start());
    assert!(at(&tree, 1, 6).is_box_end());
    assert!(!at(&tree, 1, 6).is_line_end());
    assert!(at(&tree, 2, 5).is_line_end());
    assert!(!at(&tree, 2, 4).is_box_end());
}

#[test]
fn line_start_and_end() {
    let tree = text_tree();
    let start = at(&tree, 2, 3).line_start();
    assert_eq!(start.node.id().local, NodeId(1));
    assert_eq!(start.character_index, 0);
    let end = at(&tree, 1, 2).line_end();
    assert_eq!(end.node.id().local, NodeId(2));
    assert_eq!(end.character_index, 5);
}

#[test]
fn downgrade_gives_back_the_position() {
    let tree = text_tree();
    let weak = at(&tree, 2, 3).downgrade();
    assert_eq!(weak.node, NodeId(2));
    assert_eq!(weak.character_index, 3);
}
