//! Positions within the text of inline text boxes: a box and the index of
//! a character in it. Words are given by the box's word lengths, lines by
//! the boxes that precede and follow a box on its line.

use vstd::prelude::*;

use crate::filters::{
    decided_by, first_filtered_child, first_shown_in, last_filtered_child, last_shown_in, opt_id, stored_children,
    FilterResult,
};
use crate::ids::{node_key, FullNodeId, NodeStateView, TreeIndex};
use crate::iterators::{next_filtered_sibling, previous_filtered_sibling, sibling_walk, walk_from};
use crate::roles::Role;
use crate::schema::{
    length_slice_value, node_id_value, string_value, TextPosition, PROP_CHARACTER_LENGTHS, PROP_NEXT_ON_LINE,
    PROP_PREVIOUS_ON_LINE, PROP_VALUE, PROP_WORD_LENGTHS,
};
use crate::tree::{NodeRef, TreeState};
use vstd::string::StrSliceExecFns;

verus! {

/// The sum of the first `n` lengths.
pub open spec fn length_sum(s: Seq<u8>, n: int) -> int
    decreases n,
{
    if n <= 0 || n > s.len() {
        0
    } else {
        length_sum(s, n - 1) + s[n - 1] as int
    }
}

/// Sums of more lengths are no smaller.
pub proof fn lemma_length_sum_monotonic(s: Seq<u8>, a: int, b: int)
    requires
        0 <= a <= b <= s.len(),
    ensures
        length_sum(s, a) <= length_sum(s, b),
    decreases b - a,
{
    if a < b {
        lemma_length_sum_monotonic(s, a, b - 1);
    }
}

/// Where the word that ends at or after `ci` starts: the start of the
/// first word, from word `i` on, whose end is at or after `ci` (the end of
/// all the words if there is none).
pub open spec fn word_start_before(wl: Seq<u8>, ci: int, i: int) -> int
    decreases wl.len() - i,
{
    if i < 0 || i >= wl.len() {
        length_sum(wl, wl.len() as int)
    } else if length_sum(wl, i + 1) >= ci {
        length_sum(wl, i)
    } else {
        word_start_before(wl, ci, i + 1)
    }
}

/// Where the word that goes past `ci` ends: the end of the first word,
/// from word `i` on, that ends after `ci` (the end of all the words if
/// there is none).
pub open spec fn word_end_after(wl: Seq<u8>, ci: int, i: int) -> int
    decreases wl.len() - i,
{
    if i < 0 || i >= wl.len() {
        length_sum(wl, wl.len() as int)
    } else if length_sum(wl, i + 1) > ci {
        length_sum(wl, i + 1)
    } else {
        word_end_after(wl, ci, i + 1)
    }
}

/// How the text of the node `root_id` is walked: the root itself and
/// inline text boxes are shown, every other node is looked into.
pub open spec fn text_filter_result(root_id: FullNodeId, node: NodeRef) -> FilterResult {
    if node.id_view() == root_id || node.state_view().data.role == Role::InlineTextBox {
        FilterResult::Include
    } else {
        FilterResult::ExcludeNode
    }
}

/// The filter for walking the text of the node `root_id`.
pub fn text_node_filter(root_id: FullNodeId, node: &NodeRef) -> (r: FilterResult)
    ensures
        r == text_filter_result(root_id, *node),
{
    if node.id() == root_id || node.role() == Role::InlineTextBox {
        FilterResult::Include
    } else {
        FilterResult::ExcludeNode
    }
}

/// How the text of the node `root_id` is walked, on a node's identifier
/// and stored state.
pub open spec fn text_decision(root_id: FullNodeId) -> spec_fn(FullNodeId, NodeStateView) -> FilterResult {
    |id: FullNodeId, st: NodeStateView| if id == root_id || st.data.role == Role::InlineTextBox {
        FilterResult::Include
    } else {
        FilterResult::ExcludeNode
    }
}

/// The node `found`, if it is an inline text box of `t`.
pub open spec fn box_only(t: TreeState, found: Option<FullNodeId>) -> Option<FullNodeId> {
    match found {
        Some(c) => if t.nodes_view()[node_key(c)].data.role == Role::InlineTextBox {
            Some(c)
        } else {
            None
        },
        None => None,
    }
}

/// The inline text box that follows `node` in the text of the node
/// `root_id`, as [`NodeRef::next_inline_text_box`] finds it.
pub open spec fn following_box(node: NodeRef, root_id: FullNodeId) -> Option<FullNodeId> {
    box_only(node.tree(), walk_from(Some(node), text_decision(root_id), true))
}

/// The inline text box that precedes `node` in the text of the node
/// `root_id`, as [`NodeRef::previous_inline_text_box`] finds it.
pub open spec fn preceding_box(node: NodeRef, root_id: FullNodeId) -> Option<FullNodeId> {
    box_only(node.tree(), walk_from(Some(node), text_decision(root_id), false))
}

/// Stored box `id` of `t`, taken at its end, ends a paragraph: no box
/// follows it on its line and its text ends with a line break.
pub open spec fn box_ends_paragraph(t: TreeState, id: FullNodeId) -> bool {
    let data = t.nodes_view()[node_key(id)].data;
    &&& node_id_value(data.prop(PROP_NEXT_ON_LINE)) is None
    &&& string_value(data.prop(PROP_VALUE)) is Some
    &&& string_value(data.prop(PROP_VALUE)).unwrap().len() > 0
    &&& string_value(data.prop(PROP_VALUE)).unwrap().last() == '\n'
}

/// A stored inline text box of the same tree as `anchor`.
pub open spec fn text_box_of<'a>(n: NodeRef<'a>, anchor: NodeRef<'a>) -> bool {
    &&& n.wf()
    &&& n.tree() == anchor.tree()
    &&& n.state_view().data.role == Role::InlineTextBox
}

impl<'a> NodeRef<'a> {
    /// The first inline text box below the node, looking into the nodes
    /// that are not boxes.
    pub fn first_inline_text_box(&self) -> (r: Option<NodeRef<'a>>)
        requires
            self.wf(),
        ensures
            r is Some ==> text_box_of(r.unwrap(), *self),
            opt_id(r) == box_only(self.tree(), first_shown_in(self.tree(), stored_children(self.tree(), self.id_view()),
                text_decision(self.id_view()), self.tree().nodes_view().dom().len())),
    {
        let id = self.id();
        let filter = |n: &NodeRef<'a>| -> (fr: FilterResult)
            ensures
                fr == text_filter_result(id, *n),
            { text_node_filter(id, n) };
        assert(decided_by(filter, self.tree(), text_decision(id)));
        match first_filtered_child(self, &filter) {
            Some(n) => {
                if n.role() == Role::InlineTextBox {
                    Some(n)
                } else {
                    None
                }
            },
            None => None,
        }
    }

    /// The last inline text box below the node, looking into the nodes
    /// that are not boxes.
    pub fn last_inline_text_box(&self) -> (r: Option<NodeRef<'a>>)
        requires
            self.wf(),
        ensures
            r is Some ==> text_box_of(r.unwrap(), *self),
            opt_id(r) == box_only(self.tree(), last_shown_in(self.tree(), stored_children(self.tree(), self.id_view()),
                text_decision(self.id_view()), self.tree().nodes_view().dom().len())),
    {
        let id = self.id();
        let filter = |n: &NodeRef<'a>| -> (fr: FilterResult)
            ensures
                fr == text_filter_result(id, *n),
            { text_node_filter(id, n) };
        assert(decided_by(filter, self.tree(), text_decision(id)));
        match last_filtered_child(self, &filter) {
            Some(n) => {
                if n.role() == Role::InlineTextBox {
                    Some(n)
                } else {
                    None
                }
            },
            None => None,
        }
    }

    /// The inline text box that follows this node in the text of `root`.
    pub fn next_inline_text_box(&self, root: &NodeRef<'a>) -> (r: Option<NodeRef<'a>>)
        requires
            self.wf(),
        ensures
            r is Some ==> text_box_of(r.unwrap(), *self),
            opt_id(r) == box_only(self.tree(), walk_from(Some(*self), text_decision(root.id_view()), true)),
    {
        let id = root.id();
        let filter = |n: &NodeRef<'a>| -> (fr: FilterResult)
            ensures
                fr == text_filter_result(id, *n),
            { text_node_filter(id, n) };
        assert(decided_by(filter, self.tree(), text_decision(id)));
        match next_filtered_sibling(Some(*self), &filter) {
            Some(n) => {
                if n.role() == Role::InlineTextBox {
                    Some(n)
                } else {
                    None
                }
            },
            None => None,
        }
    }

    /// The inline text box that precedes this node in the text of `root`.
    pub fn previous_inline_text_box(&self, root: &NodeRef<'a>) -> (r: Option<NodeRef<'a>>)
        requires
            self.wf(),
        ensures
            r is Some ==> text_box_of(r.unwrap(), *self),
            opt_id(r) == box_only(self.tree(), walk_from(Some(*self), text_decision(root.id_view()), false)),
    {
        let id = root.id();
        let filter = |n: &NodeRef<'a>| -> (fr: FilterResult)
            ensures
                fr == text_filter_result(id, *n),
            { text_node_filter(id, n) };
        assert(decided_by(filter, self.tree(), text_decision(id)));
        match previous_filtered_sibling(Some(*self), &filter) {
            Some(n) => {
                if n.role() == Role::InlineTextBox {
                    Some(n)
                } else {
                    None
                }
            },
            None => None,
        }
    }
}

/// A position in the text of an inline text box.
#[derive(Clone, Copy)]
pub struct InnerPosition<'a> {
    pub node: NodeRef<'a>,
    pub character_index: usize,
}

impl<'a> InnerPosition<'a> {
    /// The lengths of the box's words.
    pub open spec fn word_lengths(&self) -> Seq<u8> {
        length_slice_value(self.node.state_view().data.prop(PROP_WORD_LENGTHS))
    }

    /// How many characters the box holds.
    pub open spec fn character_count(&self) -> int {
        length_slice_value(self.node.state_view().data.prop(PROP_CHARACTER_LENGTHS)).len() as int
    }

    /// The position that a stored text position names in the tree with
    /// index `tree_index`: its node must be a stored inline text box and
    /// its index at most the box's character count.
    pub fn upgrade(tree_state: &'a TreeState, weak: TextPosition, tree_index: TreeIndex) -> (r: Option<InnerPosition<'a>>)
        ensures
            r is Some <==> text_position_valid(*tree_state, weak, tree_index),
            r is Some ==> {
                &&& r.unwrap().node.id_view().local == weak.node
                &&& r.unwrap().node.id_view().tree_index == tree_index
                &&& r.unwrap().node.wf()
                &&& r.unwrap().node.tree() == *tree_state
                &&& r.unwrap().character_index == weak.character_index
            },
    {
        let node = match tree_state.node_by_id(crate::ids::FullNodeId::new(weak.node, tree_index)) {
            Some(n) => n,
            None => {
                return None;
            },
        };
        if node.role() != Role::InlineTextBox {
            return None;
        }
        if weak.character_index > node.data().character_lengths().len() {
            return None;
        }
        Some(InnerPosition { node, character_index: weak.character_index })
    }

    /// Whether a word starts at the position.
    pub fn is_word_start(&self) -> (r: bool)
        ensures
            r == exists|i: int| 0 <= i < self.word_lengths().len() && length_sum(self.word_lengths(), i) == self.character_index,
    {
        let lengths = self.node.data().word_lengths();
        let ghost wl = self.word_lengths();
        let mut total: u128 = 0;
        let mut i: usize = 0;
        while i < lengths.len()
            invariant
                wl == self.word_lengths(),
                wl == lengths@,
                i <= wl.len(),
                total == length_sum(wl, i as int),
                total <= 255 * i,
                forall|j: int| 0 <= j < i ==> length_sum(wl, j) != self.character_index,
            decreases wl.len() - i,
        {
            if total == self.character_index as u128 {
                assert(length_sum(wl, i as int) == self.character_index);
                return true;
            }
            total = total + lengths[i] as u128;
            i = i + 1;
        }
        false
    }

    /// Whether the position is at the start of its box.
    pub fn is_box_start(&self) -> (r: bool)
        ensures
            r == (self.character_index == 0),
    {
        self.character_index == 0
    }

    /// Whether the position is at the start of a line: at the start of a
    /// box that has no box before it on its line.
    pub fn is_line_start(&self) -> (r: bool)
        ensures
            r == (self.character_index == 0
                && node_id_value(self.node.state_view().data.prop(PROP_PREVIOUS_ON_LINE)) is None),
    {
        self.is_box_start() && self.node.data().previous_on_line().is_none()
    }

    /// Whether the position is at the end of its box.
    pub fn is_box_end(&self) -> (r: bool)
        ensures
            r == (self.character_index == self.character_count()),
    {
        self.character_index == self.node.data().character_lengths().len()
    }

    /// Whether the position is at the end of a line: at the end of a box
    /// that has no box after it on its line.
    pub fn is_line_end(&self) -> (r: bool)
        ensures
            r == (self.character_index == self.character_count()
                && node_id_value(self.node.state_view().data.prop(PROP_NEXT_ON_LINE)) is None),
    {
        self.is_box_end() && self.node.data().next_on_line().is_none()
    }

    /// The start of the word that ends at or after the position, in the
    /// same box.
    pub fn previous_word_start(&self) -> (r: InnerPosition<'a>)
        ensures
            r.node == self.node,
            r.character_index == word_start_before(self.word_lengths(), self.character_index as int, 0),
    {
        let lengths = self.node.data().word_lengths();
        let ghost wl = self.word_lengths();
        let ghost ci = self.character_index as int;
        let mut before: u128 = 0;
        let mut i: usize = 0;
        let mut found = false;
        while i < lengths.len() && !found
            invariant
                wl == self.word_lengths(),
                ci == self.character_index,
                wl == lengths@,
                i <= wl.len(),
                before == length_sum(wl, i as int),
                before <= ci,
                before <= 255 * i,
                !found ==> word_start_before(wl, ci, 0) == word_start_before(wl, ci, i as int),
                found ==> word_start_before(wl, ci, 0) == before,
            decreases wl.len() - i, if found { 0int } else { 1int },
        {
            let next = before + lengths[i] as u128;
            if next >= self.character_index as u128 {
                found = true;
            } else {
                before = next;
                i = i + 1;
            }
        }
        InnerPosition { node: self.node, character_index: before as usize }
    }

    /// The end of the word that goes past the position, in the same box
    /// (at most `usize::MAX`).
    pub fn word_end(&self) -> (r: InnerPosition<'a>)
        ensures
            r.node == self.node,
            word_end_after(self.word_lengths(), self.character_index as int, 0) <= usize::MAX
                ==> r.character_index == word_end_after(self.word_lengths(), self.character_index as int, 0),
    {
        let lengths = self.node.data().word_lengths();
        let ghost wl = self.word_lengths();
        let ghost ci = self.character_index as int;
        let mut total: u128 = 0;
        let mut i: usize = 0;
        let mut found = false;
        while i < lengths.len() && !found
            invariant
                wl == self.word_lengths(),
                ci == self.character_index,
                wl == lengths@,
                i <= wl.len(),
                total == length_sum(wl, i as int),
                total <= 255 * i,
                !found ==> word_end_after(wl, ci, 0) == word_end_after(wl, ci, i as int),
                found ==> word_end_after(wl, ci, 0) == total,
            decreases wl.len() - i,
        {
            total = total + lengths[i] as u128;
            i = i + 1;
            if total > self.character_index as u128 {
                found = true;
            }
        }
        let index: usize = if total <= usize::MAX as u128 {
            total as usize
        } else {
            usize::MAX
        };
        InnerPosition { node: self.node, character_index: index }
    }

    /// The start of the line: the first box of the line, following the
    /// boxes before this one while they are stored, at most as many as
    /// the tree has nodes.
    pub fn line_start(&self) -> (r: InnerPosition<'a>)
        requires
            self.node.wf(),
        ensures
            r.character_index == 0,
            r.node.wf(),
            r.node.tree() == self.node.tree(),
            node_key(r.node.id_view()) == line_walk(self.node.tree().nodes_view(), node_key(self.node.id_view()),
                PROP_PREVIOUS_ON_LINE, self.node.tree().nodes_view().dom().len()),
    {
        let mut node = self.node;
        let mut fuel: usize = node.tree_state().node_count();
        let ghost goal = line_walk(self.node.tree().nodes_view(), node_key(self.node.id_view()),
            PROP_PREVIOUS_ON_LINE, self.node.tree().nodes_view().dom().len());
        loop
            invariant
                node.wf(),
                node.tree() == self.node.tree(),
                node.id_view().tree_index == self.node.id_view().tree_index,
                goal == line_walk(self.node.tree().nodes_view(), node_key(node.id_view()), PROP_PREVIOUS_ON_LINE, fuel as nat),
            ensures
                node.wf(),
                node.tree() == self.node.tree(),
                goal == node_key(node.id_view()),
            decreases fuel,
        {
            if fuel == 0 {
                break;
            }
            fuel = fuel - 1;
            let previous = match node.data().previous_on_line() {
                Some(id) => node.tree_state().node_by_id(node.id().with_same_tree(id)),
                None => None,
            };
            match previous {
                Some(p) => {
                    node = p;
                },
                None => {
                    break;
                },
            }
        }
        InnerPosition { node, character_index: 0 }
    }

    /// The end of the line: the end of the last box of the line, following
    /// the boxes after this one while they are stored, at most as many as
    /// the tree has nodes.
    pub fn line_end(&self) -> (r: InnerPosition<'a>)
        requires
            self.node.wf(),
        ensures
            r.character_index == r.character_count(),
            r.node.wf(),
            r.node.tree() == self.node.tree(),
            node_key(r.node.id_view()) == line_walk(self.node.tree().nodes_view(), node_key(self.node.id_view()),
                PROP_NEXT_ON_LINE, self.node.tree().nodes_view().dom().len()),
    {
        let mut node = self.node;
        let mut fuel: usize = node.tree_state().node_count();
        let ghost goal = line_walk(self.node.tree().nodes_view(), node_key(self.node.id_view()),
            PROP_NEXT_ON_LINE, self.node.tree().nodes_view().dom().len());
        loop
            invariant
                node.wf(),
                node.tree() == self.node.tree(),
                node.id_view().tree_index == self.node.id_view().tree_index,
                goal == line_walk(self.node.tree().nodes_view(), node_key(node.id_view()), PROP_NEXT_ON_LINE, fuel as nat),
            ensures
                node.wf(),
                node.tree() == self.node.tree(),
                goal == node_key(node.id_view()),
            decreases fuel,
        {
            if fuel == 0 {
                break;
            }
            fuel = fuel - 1;
            let next = match node.data().next_on_line() {
                Some(id) => node.tree_state().node_by_id(node.id().with_same_tree(id)),
                None => None,
            };
            match next {
                Some(n) => {
                    node = n;
                },
                None => {
                    break;
                },
            }
        }
        let count = node.data().character_lengths().len();
        InnerPosition { node, character_index: count }
    }

    /// The text of the position's box.
    pub open spec fn value_view(&self) -> Option<Seq<char>> {
        string_value(self.node.state_view().data.prop(PROP_VALUE))
    }

    /// At the end of a box that has no box after it on its line.
    pub open spec fn at_line_end(&self) -> bool {
        &&& self.character_index == self.character_count()
        &&& node_id_value(self.node.state_view().data.prop(PROP_NEXT_ON_LINE)) is None
    }

    /// At the end of a line whose text ends with a line break.
    pub open spec fn ends_paragraph(&self) -> bool {
        &&& self.at_line_end()
        &&& self.value_view() is Some
        &&& self.value_view().unwrap().len() > 0
        &&& self.value_view().unwrap().last() == '\n'
    }

    /// Whether the position ends a paragraph: it is at the end of a line
    /// and the box's text ends with a line break (a box without text ends
    /// none).
    pub fn is_paragraph_end(&self) -> (r: bool)
        requires
            self.node.wf(),
        ensures
            r == self.ends_paragraph(),
    {
        if !self.is_line_end() {
            return false;
        }
        match self.node.raw_value() {
            Some(v) => {
                let n = v.unicode_len();
                n > 0 && v.get_char(n - 1) == '\n'
            },
            None => false,
        }
    }

    /// Whether the position starts the text of `root`: it is at the start
    /// of its box and no box comes before that one.
    pub fn is_document_start(&self, root: &NodeRef<'a>) -> (r: bool)
        requires
            self.node.wf(),
        ensures
            r ==> self.character_index == 0,
            r == (self.character_index == 0 && preceding_box(self.node, root.id_view()) is None),
    {
        self.is_box_start() && self.node.previous_inline_text_box(root).is_none()
    }

    /// Whether the position ends the text of `root`: it is at the end of
    /// its box and no box comes after that one.
    pub fn is_document_end(&self, root: &NodeRef<'a>) -> (r: bool)
        requires
            self.node.wf(),
        ensures
            r ==> self.character_index == self.character_count(),
            r == (self.character_index == self.character_count() && following_box(self.node, root.id_view()) is None),
    {
        self.is_box_end() && self.node.next_inline_text_box(root).is_none()
    }

    /// The same place, taken at the start of the next box when the
    /// position is at the end of its own and a box follows in the text of
    /// `root`.
    pub fn biased_to_start(&self, root: &NodeRef<'a>) -> (r: InnerPosition<'a>)
        requires
            self.node.wf(),
        ensures
            start_bias_of(*self, r),
            self.character_index == self.character_count() && following_box(self.node, root.id_view()) is Some ==> {
                &&& r.node.id_view() == following_box(self.node, root.id_view()).unwrap()
                &&& r.character_index == 0
            },
            !(self.character_index == self.character_count() && following_box(self.node, root.id_view()) is Some) ==> r == *self,
    {
        if self.is_box_end() {
            match self.node.next_inline_text_box(root) {
                Some(node) => {
                    return InnerPosition { node, character_index: 0 };
                },
                None => {},
            }
        }
        *self
    }

    /// The same place, taken at the end of the previous box when the
    /// position is at the start of its own and a box precedes it in the
    /// text of `root`.
    pub fn biased_to_end(&self, root: &NodeRef<'a>) -> (r: InnerPosition<'a>)
        requires
            self.node.wf(),
        ensures
            end_bias_of(*self, r),
            self.character_index == 0 && preceding_box(self.node, root.id_view()) is Some ==> {
                &&& r.node.id_view() == preceding_box(self.node, root.id_view()).unwrap()
                &&& r.character_index == r.character_count()
            },
            !(self.character_index == 0 && preceding_box(self.node, root.id_view()) is Some) ==> r == *self,
    {
        if self.is_box_start() {
            match self.node.previous_inline_text_box(root) {
                Some(node) => {
                    let count = node.data().character_lengths().len();
                    return InnerPosition { node, character_index: count };
                },
                None => {},
            }
        }
        *self
    }

    /// The position as navigation leaves it: kept at the end of a line
    /// that does not end a paragraph, otherwise taken at the start of the
    /// next box.
    pub fn normalized(&self, root: &NodeRef<'a>) -> (r: InnerPosition<'a>)
        requires
            self.node.wf(),
        ensures
            normal_form_of(*self, r),
            spot_of(r) == spot_normalized(self.node.tree(), root.id_view(), spot_of(*self)),
            r.node.wf(),
            r.node.tree() == self.node.tree(),
    {
        if self.is_line_end() && !self.is_paragraph_end() {
            *self
        } else {
            self.biased_to_start(root)
        }
    }

    /// The key by which positions in the text of `root` are ordered: the
    /// index path from `root` down to the box, and the character index,
    /// of the position taken at the start of the next box.
    pub fn comparable(&self, root: &NodeRef<'a>) -> (r: (Vec<usize>, usize))
        requires
            self.node.wf(),
        ensures
            position_key(root.id_view(), *self, r.0@, r.1),
    {
        let normalized = self.biased_to_start(root);
        let path = normalized.node.relative_index_path(root.id());
        assert(comparable_key_of(normalized, root.id_view(), path@, normalized.character_index));
        (path, normalized.character_index)
    }

    /// The stored form of the position, in spec.
    pub open spec fn downgrade_view(&self) -> TextPosition {
        TextPosition { node: self.node.id_view().local, character_index: self.character_index }
    }

    /// The stored form of the position: its node's local identifier and
    /// the character index.
    pub fn downgrade(&self) -> (r: TextPosition)
        ensures
            r == self.downgrade_view(),
    {
        TextPosition { node: self.node.id().local, character_index: self.character_index }
    }
}

/// A place in the text of a tree: a box and a character index in it.
pub open spec fn spot_of<'a>(p: InnerPosition<'a>) -> (FullNodeId, int) {
    (p.node.id_view(), p.character_index as int)
}

/// The data of stored node `id` of `t`.
pub open spec fn box_data(t: TreeState, id: FullNodeId) -> crate::schema::NodeView {
    t.nodes_view()[node_key(id)].data
}

/// How many characters box `id` of `t` holds.
pub open spec fn box_count(t: TreeState, id: FullNodeId) -> int {
    length_slice_value(box_data(t, id).prop(PROP_CHARACTER_LENGTHS)).len() as int
}

/// The box that follows box `id` in the text of node `root` of `t`.
pub open spec fn box_after(t: TreeState, root: FullNodeId, id: FullNodeId) -> Option<FullNodeId> {
    box_only(t, sibling_walk(t, text_decision(root), id, false, true, 2 * t.nodes_view().dom().len() + 2))
}

/// The box that precedes box `id` in the text of node `root` of `t`.
pub open spec fn box_before(t: TreeState, root: FullNodeId, id: FullNodeId) -> Option<FullNodeId> {
    box_only(t, sibling_walk(t, text_decision(root), id, false, false, 2 * t.nodes_view().dom().len() + 2))
}

/// The word lengths of box `id` of `t`.
pub open spec fn spot_word_lengths(t: TreeState, id: FullNodeId) -> Seq<u8> {
    length_slice_value(box_data(t, id).prop(PROP_WORD_LENGTHS))
}

/// Place `s`, taken at the start of the next box when it is at the end of
/// its box and a box follows.
pub open spec fn spot_start_biased(t: TreeState, root: FullNodeId, s: (FullNodeId, int)) -> (FullNodeId, int) {
    if s.1 == box_count(t, s.0) && box_after(t, root, s.0) is Some {
        (box_after(t, root, s.0).unwrap(), 0)
    } else {
        s
    }
}

/// Place `s`, taken at the end of the previous box when it is at the start
/// of its box and a box precedes.
pub open spec fn spot_end_biased(t: TreeState, root: FullNodeId, s: (FullNodeId, int)) -> (FullNodeId, int) {
    if s.1 == 0 && box_before(t, root, s.0) is Some {
        (box_before(t, root, s.0).unwrap(), box_count(t, box_before(t, root, s.0).unwrap()))
    } else {
        s
    }
}

/// The end of the line of place `s`: the end of the last box on its line.
pub open spec fn spot_line_end(t: TreeState, s: (FullNodeId, int)) -> (FullNodeId, int) {
    let e = crate::ids::key_node(line_walk(t.nodes_view(), node_key(s.0), PROP_NEXT_ON_LINE, t.nodes_view().dom().len()));
    (e, box_count(t, e))
}

/// Place `s` is at the end of a box that has no box after it on its line.
pub open spec fn spot_at_line_end(t: TreeState, s: (FullNodeId, int)) -> bool {
    &&& s.1 == box_count(t, s.0)
    &&& node_id_value(box_data(t, s.0).prop(PROP_NEXT_ON_LINE)) is None
}

/// Place `s` is at the end of a line whose text ends with a line break.
pub open spec fn spot_ends_paragraph(t: TreeState, s: (FullNodeId, int)) -> bool {
    let v = string_value(box_data(t, s.0).prop(PROP_VALUE));
    &&& spot_at_line_end(t, s)
    &&& v is Some
    &&& v.unwrap().len() > 0
    &&& v.unwrap().last() == '\n'
}

/// The normal form of place `s`: kept at the end of a line that ends no
/// paragraph, taken at the start of the next box otherwise.
pub open spec fn spot_normalized(t: TreeState, root: FullNodeId, s: (FullNodeId, int)) -> (FullNodeId, int) {
    if spot_at_line_end(t, s) && !spot_ends_paragraph(t, s) {
        s
    } else {
        spot_start_biased(t, root, s)
    }
}

/// One move by line from place `s` in the text of node `root`: to the end
/// of the line that `s` (taken at the start of the next box) is on, in
/// normal form.
pub open spec fn line_step(t: TreeState, root: FullNodeId, s: (FullNodeId, int)) -> (FullNodeId, int) {
    spot_normalized(t, root, spot_line_end(t, spot_start_biased(t, root, s)))
}

/// Place `s` is where a move by paragraph stops: at the end of the text,
/// or (taken at the end of the previous box) at a paragraph end.
pub open spec fn paragraph_stop(t: TreeState, root: FullNodeId, s: (FullNodeId, int)) -> bool {
    ||| (s.1 == box_count(t, s.0) && box_after(t, root, s.0) is None)
    ||| spot_ends_paragraph(t, spot_end_biased(t, root, s))
}

/// The start of the line of place `s`: the start of the first box on its
/// line.
pub open spec fn spot_line_start(t: TreeState, s: (FullNodeId, int)) -> (FullNodeId, int) {
    (crate::ids::key_node(line_walk(t.nodes_view(), node_key(s.0), PROP_PREVIOUS_ON_LINE, t.nodes_view().dom().len())), 0)
}

/// One move back by line from place `s` in the text of node `root`: to
/// the start of the line that `s` (taken at the end of the previous box)
/// is on, in normal form.
pub open spec fn line_back_step(t: TreeState, root: FullNodeId, s: (FullNodeId, int)) -> (FullNodeId, int) {
    spot_normalized(t, root, spot_line_start(t, spot_end_biased(t, root, s)))
}

/// Place `s` starts a paragraph: it is at the start of its box, and no box
/// precedes it, or it starts a line after a box that ends a paragraph.
pub open spec fn paragraph_start_spot(t: TreeState, root: FullNodeId, s: (FullNodeId, int)) -> bool {
    &&& s.1 == 0
    &&& {
        ||| box_before(t, root, s.0) is None
        ||| (node_id_value(box_data(t, s.0).prop(PROP_PREVIOUS_ON_LINE)) is None
            && box_ends_paragraph(t, box_before(t, root, s.0).unwrap()))
    }
}

/// `k` moves back by line from place `s`.
pub open spec fn line_back_steps(t: TreeState, root: FullNodeId, s: (FullNodeId, int), k: nat) -> (FullNodeId, int)
    decreases k,
{
    if k == 0 {
        s
    } else {
        line_back_step(t, root, line_back_steps(t, root, s, (k - 1) as nat))
    }
}

/// `k` moves by line from place `s`.
pub open spec fn line_steps(t: TreeState, root: FullNodeId, s: (FullNodeId, int), k: nat) -> (FullNodeId, int)
    decreases k,
{
    if k == 0 {
        s
    } else {
        line_step(t, root, line_steps(t, root, s, (k - 1) as nat))
    }
}

/// `r` is `pos`, or, when `pos` is at the end of its box, the start of
/// another stored inline text box of the same tree.
pub open spec fn start_bias_of<'a>(pos: InnerPosition<'a>, r: InnerPosition<'a>) -> bool {
    if pos.character_index == pos.character_count() {
        r == pos || (r.character_index == 0 && text_box_of(r.node, pos.node))
    } else {
        r == pos
    }
}

/// `r` is `pos`, or, when `pos` is at the start of its box, the end of
/// another stored inline text box of the same tree.
pub open spec fn end_bias_of<'a>(pos: InnerPosition<'a>, r: InnerPosition<'a>) -> bool {
    if pos.character_index == 0 {
        r == pos || (r.character_index == r.character_count() && text_box_of(r.node, pos.node))
    } else {
        r == pos
    }
}

/// `r` is `pos` at the end of a line that ends no paragraph, and `pos`
/// taken at the start of the next box otherwise.
pub open spec fn normal_form_of<'a>(pos: InnerPosition<'a>, r: InnerPosition<'a>) -> bool {
    if pos.at_line_end() && !pos.ends_paragraph() {
        r == pos
    } else {
        start_bias_of(pos, r)
    }
}

/// The ordering key of position `b` in the text of the node `root`: its
/// character index, and the index path down to its box whenever the box
/// lies below `root`.
pub open spec fn comparable_key_of<'a>(b: InnerPosition<'a>, root: FullNodeId, path: Seq<usize>, index: usize) -> bool {
    &&& index == b.character_index
    &&& crate::node::descends_from(b.node.tree(), crate::ids::node_key(b.node.id_view()), crate::ids::node_key(root),
        b.node.tree().nodes_view().dom().len())
        ==> path == crate::node::index_path_to(b.node.tree(), crate::ids::node_key(b.node.id_view()),
            crate::ids::node_key(root), b.node.tree().nodes_view().dom().len())
}

/// `(path, index)` is an ordering key of `pos` in the text of the node
/// `root`: that of `pos` taken at the start of the next box.
pub open spec fn position_key<'a>(root: FullNodeId, pos: InnerPosition<'a>, path: Seq<usize>, index: usize) -> bool {
    exists|b: InnerPosition<'a>| #[trigger] start_bias_of(pos, b) && comparable_key_of(b, root, path, index)
}

/// A stored text position names a position in the tree with index
/// `tree_index`: its node is a stored inline text box and its index is at
/// most the box's character count.
pub open spec fn text_position_valid(tree: TreeState, weak: TextPosition, tree_index: TreeIndex) -> bool {
    let k = (weak.node.0, tree_index.0);
    &&& tree.nodes_view().contains_key(k)
    &&& tree.nodes_view()[k].data.role == Role::InlineTextBox
    &&& weak.character_index <= length_slice_value(tree.nodes_view()[k].data.prop(PROP_CHARACTER_LENGTHS)).len()
}

/// The box reached from stored box `k` by following the line link `link`
/// (the box before or after on the line) while it names a stored node of
/// the same tree, at most `fuel` times.
pub open spec fn line_walk(nodes: Map<(u64, u32), NodeStateView>, k: (u64, u32), link: u8, fuel: nat) -> (u64, u32)
    decreases fuel,
{
    if fuel == 0 || !nodes.contains_key(k) {
        k
    } else {
        let next = node_id_value(nodes[k].data.prop(link));
        if next is Some && nodes.contains_key((next.unwrap().0, k.1)) {
            line_walk(nodes, (next.unwrap().0, k.1), link, (fuel - 1) as nat)
        } else {
            k
        }
    }
}

/// The value of a text attribute over a range: one value throughout, or
/// mixed.
#[derive(Clone, Copy, Debug, PartialEq, Eq)]
pub enum AttributeValue<T> {
    Single(T),
    Mixed,
}

} // verus!
