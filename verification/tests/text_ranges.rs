use std::cmp::Ordering;

use accesskit::ids::{FullNodeId, TreeIndex};
use accesskit::ranges::{key_compare, Position, Range};
use accesskit::roles::Role;
use accesskit::text::AttributeValue;
use accesskit::schema::{
    Node, NodeBuilder, NodeClassSet, NodeId, TextPosition, TextSelection, Tree as TreeInfo, TreeId, TreeUpdate,
};
use accesskit::tree::Tree;

const NODE_ID_1: NodeId = NodeId(1);
const NODE_ID_2: NodeId = NodeId(2);
const NODE_ID_3: NodeId = NodeId(3);
const NODE_ID_4: NodeId = NodeId(4);
const NODE_ID_5: NodeId = NodeId(5);
const NODE_ID_6: NodeId = NodeId(6);
const NODE_ID_7: NodeId = NodeId(7);
const NODE_ID_8: NodeId = NodeId(8);

fn nid(id: NodeId) -> FullNodeId {
    FullNodeId::new(id, TreeIndex(0))
}

fn text_box(value: &str, character_count: usize, word_lengths: Vec<u8>, classes: &mut NodeClassSet) -> Node {
    let mut b = NodeBuilder::new(Role::InlineTextBox);
    b.set_value(value.to_string());
    b.set_character_lengths(vec![1; character_count]);
    b.set_word_lengths(word_lengths);
    b.build(classes)
}

// A multiline text field with six inline text boxes: a paragraph wrapped
// over two lines, another paragraph, a blank line, a last line, and an
// empty box at the end.
fn main_multiline_tree(selection: Option<TextSelection>) -> Tree {
    let mut classes = NodeClassSet::new();
    let mut window = NodeBuilder::new(Role::Window);
    window.set_children(vec![NODE_ID_2]);
    let mut field = NodeBuilder::new(Role::TextInput);
    field.set_children(vec![NODE_ID_3, NODE_ID_4, NODE_ID_5, NODE_ID_6, NODE_ID_7, NODE_ID_8]);
    if let Some(selection) = selection {
        field.set_text_selection(selection);
    }
    let update = TreeUpdate {
        nodes: vec![
            (NODE_ID_1, window.build(&mut classes)),
            (NODE_ID_2, field.build(&mut classes)),
            (
                NODE_ID_3,
                text_box("This paragraph is long enough to wrap ", 38, vec![5, 10, 3, 5, 7, 3, 5], &mut classes),
            ),
            (NODE_ID_4, text_box("to another line.\n", 17, vec![3, 8, 6], &mut classes)),
            (NODE_ID_5, text_box("Another paragraph.\n", 19, vec![8, 11], &mut classes)),
            (NODE_ID_6, text_box("\n", 1, vec![1], &mut classes)),
            (NODE_ID_7, text_box("Last non-blank line.\n", 21, vec![5, 4, 6, 6], &mut classes)),
            (NODE_ID_8, text_box("", 0, vec![0], &mut classes)),
        ],
        tree: Some(TreeInfo::new(NODE_ID_1)),
        tree_id: TreeId::root(),
        focus: NODE_ID_2,
    };
    Tree::new(update, true).unwrap()
}

fn caret(node: NodeId, character_index: usize) -> TextSelection {
    let pos = TextPosition { node, character_index };
    TextSelection { anchor: pos, focus: pos }
}

fn multiline_end_selection() -> TextSelection {
    caret(NODE_ID_8, 0)
}

fn multiline_wrapped_line_end_selection() -> TextSelection {
    caret(NODE_ID_3, 38)
}

fn multiline_second_line_middle_selection() -> TextSelection {
    caret(NODE_ID_4, 5)
}

fn at(pos: &Position) -> (u64, usize) {
    (pos.inner().node.id().local.0, pos.inner().character_index)
}

#[test]
fn supports_text_ranges() {
    let tree = main_multiline_tree(None);
    let state = tree.state();
    assert!(!state.node_by_id(nid(NODE_ID_1)).unwrap().supports_text_ranges());
    assert!(state.node_by_id(nid(NODE_ID_2)).unwrap().supports_text_ranges());
}

#[test]
fn multiline_document_range() {
    let tree = main_multiline_tree(None);
    let state = tree.state();
    let node = state.node_by_id(nid(NODE_ID_2)).unwrap();
    let range = node.document_range().unwrap();
    let start = range.start();
    assert!(start.is_word_start());
    assert!(start.is_line_start());
    assert!(!start.is_line_end());
    assert!(start.is_paragraph_start());
    assert!(start.is_document_start());
    assert!(!start.is_document_end());
    let end = range.end();
    assert_eq!(start.partial_cmp(&end), Some(Ordering::Less));
    assert!(end.is_word_start());
    assert!(end.is_line_start());
    assert!(end.is_line_end());
    assert!(end.is_paragraph_start());
    assert!(!end.is_document_start());
    assert!(end.is_document_end());
    assert_eq!(
        range.text(),
        "This paragraph is long enough to wrap to another line.\nAnother paragraph.\n\nLast non-blank line.\n"
    );
}

#[test]
fn multiline_end_degenerate_range() {
    let tree = main_multiline_tree(Some(multiline_end_selection()));
    let state = tree.state();
    let node = state.node_by_id(nid(NODE_ID_2)).unwrap();
    let range = node.text_selection().unwrap();
    assert!(range.is_degenerate());
    let pos = range.start();
    assert!(pos.is_word_start());
    assert!(pos.is_line_start());
    assert!(pos.is_line_end());
    assert!(pos.is_paragraph_start());
    assert!(!pos.is_document_start());
    assert!(pos.is_document_end());
    assert_eq!(range.text(), "");
}

#[test]
fn multiline_wrapped_line_end_range() {
    let tree = main_multiline_tree(Some(multiline_wrapped_line_end_selection()));
    let state = tree.state();
    let node = state.node_by_id(nid(NODE_ID_2)).unwrap();
    let range = node.text_selection().unwrap();
    assert!(range.is_degenerate());
    let pos = range.start();
    assert!(!pos.is_word_start());
    assert!(!pos.is_line_start());
    assert!(pos.is_line_end());
    assert!(!pos.is_paragraph_start());
    assert!(!pos.is_document_start());
    assert!(!pos.is_document_end());
    assert_eq!(range.text(), "");
    let next_char_pos = pos.forward_by_character();
    let mut line_start_range = range;
    line_start_range.set_end(next_char_pos);
    assert!(!line_start_range.is_degenerate());
    assert_eq!(line_start_range.text(), "t");
    let prev_char_pos = pos.backward_by_character();
    let mut prev_char_range = range;
    prev_char_range.set_start(prev_char_pos);
    assert!(!prev_char_range.is_degenerate());
    assert_eq!(prev_char_range.text(), " ");
}

#[test]
fn multiline_find_line_ends_from_middle() {
    let tree = main_multiline_tree(Some(multiline_second_line_middle_selection()));
    let state = tree.state();
    let node = state.node_by_id(nid(NODE_ID_2)).unwrap();
    let mut range = node.text_selection().unwrap();
    assert!(range.is_degenerate());
    let pos = range.start();
    assert!(!pos.is_line_start());
    assert!(!pos.is_line_end());
    assert!(!pos.is_document_start());
    assert!(!pos.is_document_end());
    let line_start = pos.backward_by_line();
    range.set_start(line_start);
    let line_end = line_start.forward_by_line();
    range.set_end(line_end);
    assert!(!range.is_degenerate());
    assert_eq!(range.text(), "to another line.\n");
}

#[test]
fn multiline_find_paragraph_ends_from_middle() {
    let tree = main_multiline_tree(Some(multiline_second_line_middle_selection()));
    let state = tree.state();
    let node = state.node_by_id(nid(NODE_ID_2)).unwrap();
    let mut range = node.text_selection().unwrap();
    assert!(range.is_degenerate());
    let pos = range.start();
    assert!(!pos.is_paragraph_start());
    assert!(!pos.is_document_start());
    assert!(!pos.is_document_end());
    let paragraph_start = pos.backward_by_paragraph();
    range.set_start(paragraph_start);
    let paragraph_end = paragraph_start.forward_by_paragraph();
    range.set_end(paragraph_end);
    assert!(!range.is_degenerate());
    assert_eq!(range.text(), "This paragraph is long enough to wrap to another line.\n");
}

#[test]
fn multiline_find_word_ends_from_middle() {
    let tree = main_multiline_tree(Some(multiline_second_line_middle_selection()));
    let state = tree.state();
    let node = state.node_by_id(nid(NODE_ID_2)).unwrap();
    let mut range = node.text_selection().unwrap();
    assert!(range.is_degenerate());
    let pos = range.start();
    assert!(!pos.is_word_start());
    assert!(!pos.is_document_start());
    assert!(!pos.is_document_end());
    let word_start = pos.backward_by_word();
    range.set_start(word_start);
    let word_end = word_start.forward_by_word();
    range.set_end(word_end);
    assert!(!range.is_degenerate());
    assert_eq!(range.text(), "another ");
}

#[test]
fn moving_by_character_crosses_boxes_and_stops_at_the_start() {
    let tree = main_multiline_tree(Some(caret(NODE_ID_4, 0)));
    let state = tree.state();
    let node = state.node_by_id(nid(NODE_ID_2)).unwrap();
    let pos = node.text_selection().unwrap().start();
    // One character back from the start of the second box is the space at
    // the end of the first.
    assert_eq!(at(&pos.backward_by_character()), (3, 37));
    assert_eq!(at(&pos.forward_by_character()), (4, 1));
    let start = pos.backward_by_document();
    assert!(start.is_document_start());
    assert_eq!(at(&start), (3, 0));
    assert_eq!(at(&start.backward_by_character()), (3, 0));
    let end = pos.forward_by_document();
    assert!(end.is_document_end());
    assert_eq!(at(&end), (8, 0));
    assert_eq!(at(&pos.forward_by_format()), (8, 0));
    assert_eq!(at(&pos.backward_by_page()), (3, 0));
}

#[test]
fn positions_compare_by_their_place_in_the_text() {
    let tree = main_multiline_tree(None);
    let state = tree.state();
    let node = state.node_by_id(nid(NODE_ID_2)).unwrap();
    let range = node.document_range().unwrap();
    let start = range.start();
    let end = range.end();
    assert_eq!(end.partial_cmp(&start), Some(Ordering::Greater));
    assert_eq!(start.partial_cmp(&start), Some(Ordering::Equal));
    assert!(start == start);
    assert!(start != end);
    let other_root = state.node_by_id(nid(NODE_ID_1)).unwrap().document_range();
    assert!(other_root.is_some());
    let window_start = other_root.unwrap().start();
    assert_eq!(window_start.partial_cmp(&start), None);
    assert!(key_compare(&(vec![0, 1], 5), &(vec![0, 1], 7)) < 0);
    assert!(key_compare(&(vec![0, 2], 0), &(vec![0, 1], 7)) > 0);
    assert!(key_compare(&(vec![0], 9), &(vec![0, 1], 0)) < 0);
    assert_eq!(key_compare(&(vec![1, 2], 3), &(vec![1, 2], 3)), 0);
}

#[test]
fn box_end_and_next_box_start_are_the_same_place() {
    let tree = main_multiline_tree(Some(caret(NODE_ID_3, 38)));
    let state = tree.state();
    let node = state.node_by_id(nid(NODE_ID_2)).unwrap();
    let end_of_first = node.text_selection().unwrap().start();
    let mut range = end_of_first.to_degenerate_range();
    assert!(range.is_degenerate());
    let start_of_second = end_of_first.forward_by_character().backward_by_character();
    assert_eq!(at(&start_of_second), (4, 0));
    range.set_end(start_of_second);
    assert!(range.is_degenerate());
    assert_eq!(end_of_first.partial_cmp(&start_of_second), Some(Ordering::Equal));
    assert!(end_of_first != start_of_second);
}

#[test]
fn weak_range_round_trip() {
    let tree = main_multiline_tree(Some(multiline_second_line_middle_selection()));
    let state = tree.state();
    let node = state.node_by_id(nid(NODE_ID_2)).unwrap();
    let range = node.document_range().unwrap();
    let weak = range.downgrade();
    assert_eq!(weak.node_id(), nid(NODE_ID_2));
    assert_eq!(weak.start_comparable(), &(vec![0], 0));
    assert_eq!(weak.end_comparable(), &(vec![5], 0));
    let back: Range = weak.upgrade(state).unwrap();
    assert!(back == range);
    assert_eq!(back.text(), range.text());
    assert_eq!(weak.clone(), weak);
    assert!(node.has_text_selection());
    assert!(!state.node_by_id(nid(NODE_ID_1)).unwrap().has_text_selection());
}

#[test]
fn index_paths() {
    let tree = main_multiline_tree(None);
    let state = tree.state();
    let last_box = state.node_by_id(nid(NODE_ID_8)).unwrap();
    assert_eq!(last_box.index_path(), vec![0, 5]);
    assert_eq!(last_box.relative_index_path(nid(NODE_ID_2)), vec![5]);
    assert_eq!(last_box.relative_index_path(nid(NODE_ID_8)), Vec::<usize>::new());
}

#[test]
fn attribute_is_single_or_mixed() {
    let tree = main_multiline_tree(Some(multiline_second_line_middle_selection()));
    let state = tree.state();
    let node = state.node_by_id(nid(NODE_ID_2)).unwrap();
    let caret = node.text_selection().unwrap();
    assert_eq!(caret.attribute(|n| n.role()), AttributeValue::Single(Role::InlineTextBox));
    let whole = node.document_range().unwrap();
    assert_eq!(whole.attribute(|n| n.role()), AttributeValue::Single(Role::InlineTextBox));
    assert_eq!(whole.attribute(|n| n.id().local.0), AttributeValue::Mixed);
}

#[test]
fn value_comes_from_the_text_when_not_stored() {
    let tree = main_multiline_tree(None);
    let state = tree.state();
    let field = state.node_by_id(nid(NODE_ID_2)).unwrap();
    // A single-line text input reads its value from its text.
    assert_eq!(
        field.value(),
        Some("This paragraph is long enough to wrap to another line.\nAnother paragraph.\n\nLast non-blank line.\n".to_string())
    );
    assert!(field.has_value());
    let first_box = state.node_by_id(nid(NODE_ID_3)).unwrap();
    assert_eq!(first_box.value(), Some("This paragraph is long enough to wrap ".to_string()));
    let window = state.node_by_id(nid(NODE_ID_1)).unwrap();
    assert_eq!(window.value(), None);
    assert!(!window.has_value());
}
