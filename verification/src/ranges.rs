//! Positions in the text of a node, and ranges between two of them: moving
//! by character, word, line, paragraph and document; ordering positions;
//! reading the text of a range.

use vstd::prelude::*;

use crate::ids::{node_key, FullNodeId};
use crate::roles::Role;
use crate::schema::{
    length_slice_value, string_value, text_selection_value, TextPosition, PROP_CHARACTER_LENGTHS, PROP_TEXT_SELECTION,
    PROP_VALUE,
};
use crate::text::{box_only, length_sum, text_decision, text_position_valid, AttributeValue};
use crate::filters::{first_shown_in, last_shown_in, stored_children};
use crate::tree::TreeState;
use vstd::string::{StringExecFns, StringSliceAdditionalSpecFns};
use vstd::utf8::{decode_utf8, encode_utf8, is_char_boundary};
use crate::text::{
    end_bias_of, line_back_step, line_back_steps, line_step, line_steps, normal_form_of, paragraph_start_spot, paragraph_stop, position_key, spot_of, spot_start_biased,
    spot_line_end, start_bias_of, text_box_of, InnerPosition,
};
use crate::tree::NodeRef;
use std::cmp::Ordering;
use vstd::std_specs::cmp::{PartialEqSpec, PartialEqSpecImpl};

verus! {

/// The lexicographic order of two index paths: -1, 0 or 1.
pub open spec fn path_order(a: Seq<usize>, b: Seq<usize>) -> int
    decreases a.len(),
{
    if a.len() == 0 {
        if b.len() == 0 {
            0
        } else {
            -1
        }
    } else if b.len() == 0 {
        1
    } else if a[0] < b[0] {
        -1
    } else if a[0] > b[0] {
        1
    } else {
        path_order(a.drop_first(), b.drop_first())
    }
}

/// The order of two ordering keys (an index path, then a character index):
/// -1, 0 or 1.
pub open spec fn key_order(a: Seq<usize>, i: usize, b: Seq<usize>, j: usize) -> int {
    if path_order(a, b) != 0 {
        path_order(a, b)
    } else if i < j {
        -1
    } else if i > j {
        1
    } else {
        0
    }
}

/// The ordering that an order of -1, 0 or 1 stands for.
pub open spec fn ordering_of(order: int) -> Ordering {
    if order < 0 {
        Ordering::Less
    } else if order > 0 {
        Ordering::Greater
    } else {
        Ordering::Equal
    }
}

/// The order of the positions `a` and `b` in the text of the node `root`
/// is `order`: it is that of some ordering keys of the two.
pub open spec fn placed_in_order<'a>(root: FullNodeId, a: InnerPosition<'a>, b: InnerPosition<'a>, order: int) -> bool {
    exists|pa: Seq<usize>, ia: usize, pb: Seq<usize>, ib: usize|
        #![trigger position_key(root, a, pa, ia), position_key(root, b, pb, ib)]
        position_key(root, a, pa, ia) && position_key(root, b, pb, ib) && order == key_order(pa, ia, pb, ib)
}

/// An order computed as a small integer, as a mathematical one.
pub open spec fn widened(c: i8) -> int {
    c as int
}

/// Swapping two index paths reverses their order, and two paths are in
/// order 0 exactly when they are equal.
pub proof fn lemma_path_order_antisymmetric(a: Seq<usize>, b: Seq<usize>)
    ensures
        path_order(a, b) == -path_order(b, a),
        path_order(a, b) == 0 <==> a == b,
    decreases a.len(),
{
    if a.len() > 0 && b.len() > 0 && a[0] == b[0] {
        lemma_path_order_antisymmetric(a.drop_first(), b.drop_first());
        if a.drop_first() == b.drop_first() {
            assert(a =~= seq![a[0]] + a.drop_first());
            assert(b =~= seq![b[0]] + b.drop_first());
        }
    }
    if a.len() == 0 && b.len() == 0 {
        assert(a =~= b);
    }
    if a.len() > 0 && b.len() > 0 && a == b {
        assert(a.drop_first() == b.drop_first());
    }
}

/// The order of index paths is transitive.
pub proof fn lemma_path_order_transitive(a: Seq<usize>, b: Seq<usize>, c: Seq<usize>)
    requires
        path_order(a, b) < 0,
        path_order(b, c) < 0,
    ensures
        path_order(a, c) < 0,
    decreases a.len(),
{
    if a.len() > 0 && b.len() > 0 && c.len() > 0 && a[0] == b[0] && b[0] == c[0] {
        lemma_path_order_transitive(a.drop_first(), b.drop_first(), c.drop_first());
    }
}

/// Ordering keys are totally ordered: swapping two keys reverses their
/// order, two keys are in order 0 exactly when they are equal, and a key
/// before one that is before a third is before the third.
pub proof fn lemma_key_order_total(a: Seq<usize>, i: usize, b: Seq<usize>, j: usize, c: Seq<usize>, k: usize)
    ensures
        key_order(a, i, b, j) == -key_order(b, j, a, i),
        key_order(a, i, b, j) == 0 <==> (a == b && i == j),
        key_order(a, i, b, j) < 0 && key_order(b, j, c, k) < 0 ==> key_order(a, i, c, k) < 0,
{
    lemma_path_order_antisymmetric(a, b);
    lemma_path_order_antisymmetric(b, c);
    lemma_path_order_antisymmetric(a, c);
    if path_order(a, b) < 0 && path_order(b, c) < 0 {
        lemma_path_order_transitive(a, b, c);
    }
}

/// Compares two ordering keys: -1 if `a` comes first, 0 if they are equal,
/// 1 if `b` comes first.
pub fn key_compare(a: &(Vec<usize>, usize), b: &(Vec<usize>, usize)) -> (r: i8)
    ensures
        r == key_order(a.0@, a.1, b.0@, b.1),
{
    let mut i: usize = 0;
    assert(a.0@.skip(0) == a.0@ && b.0@.skip(0) == b.0@);
    while i < a.0.len() && i < b.0.len()
        invariant
            i <= a.0@.len(),
            i <= b.0@.len(),
            path_order(a.0@, b.0@) == path_order(a.0@.skip(i as int), b.0@.skip(i as int)),
        decreases a.0@.len() - i,
    {
        proof {
            assert(a.0@.skip(i as int).drop_first() == a.0@.skip(i as int + 1));
            assert(b.0@.skip(i as int).drop_first() == b.0@.skip(i as int + 1));
        }
        if a.0[i] < b.0[i] {
            return -1;
        }
        if a.0[i] > b.0[i] {
            return 1;
        }
        i = i + 1;
    }
    if i < b.0.len() {
        return -1;
    }
    if i < a.0.len() {
        return 1;
    }
    if a.1 < b.1 {
        -1
    } else if a.1 > b.1 {
        1
    } else {
        0
    }
}

/// A position in the text of a node (the root of the position).
#[derive(Clone, Copy)]
pub struct Position<'a> {
    pub root_node: NodeRef<'a>,
    pub inner: InnerPosition<'a>,
}

impl<'a> Position<'a> {
    /// The root and the position's box are stored nodes of one tree.
    pub open spec fn wf(&self) -> bool {
        &&& self.root_node.wf()
        &&& self.inner.node.wf()
        &&& self.inner.node.tree() == self.root_node.tree()
    }

    /// `r` is a position in the same text whose place is `inner`.
    pub open spec fn moved_to(&self, r: Position<'a>, inner: InnerPosition<'a>) -> bool {
        &&& r.wf()
        &&& r.root_node == self.root_node
        &&& r.inner == inner
    }

    /// The node whose text the position is in.
    pub fn root_node(&self) -> (r: NodeRef<'a>)
        ensures
            r == self.root_node,
    {
        self.root_node
    }

    /// The box and character index of the position.
    pub fn inner(&self) -> (r: InnerPosition<'a>)
        ensures
            r == self.inner,
    {
        self.inner
    }

    /// Whether a format run starts here: only at the start of the text.
    pub fn is_format_start(&self) -> (r: bool)
        requires
            self.wf(),
        ensures
            r ==> self.inner.character_index == 0,
            r == (self.inner.character_index == 0
                && crate::text::preceding_box(self.inner.node, self.root_node.id_view()) is None),
    {
        self.is_document_start()
    }

    /// Whether a word starts at the position.
    pub fn is_word_start(&self) -> (r: bool)
        ensures
            r == exists|i: int| 0 <= i < self.inner.word_lengths().len()
                && crate::text::length_sum(self.inner.word_lengths(), i) == self.inner.character_index,
    {
        self.inner.is_word_start()
    }

    /// Whether a line starts at the position.
    pub fn is_line_start(&self) -> (r: bool)
        ensures
            r == (self.inner.character_index == 0 && crate::schema::node_id_value(
                self.inner.node.state_view().data.prop(crate::schema::PROP_PREVIOUS_ON_LINE),
            ) is None),
    {
        self.inner.is_line_start()
    }

    /// Whether a line ends at the position.
    pub fn is_line_end(&self) -> (r: bool)
        ensures
            r == self.inner.at_line_end(),
    {
        self.inner.is_line_end()
    }

    /// Whether a paragraph starts at the position: at the start of the
    /// text, or at the start of a line whose previous line ends a
    /// paragraph.
    pub fn is_paragraph_start(&self) -> (r: bool)
        requires
            self.wf(),
        ensures
            r ==> self.inner.character_index == 0,
            r == (self.inner.character_index == 0 && {
                let before = crate::text::preceding_box(self.inner.node, self.root_node.id_view());
                ||| before is None
                ||| (crate::schema::node_id_value(
                        self.inner.node.state_view().data.prop(crate::schema::PROP_PREVIOUS_ON_LINE)) is None
                    && crate::text::box_ends_paragraph(self.inner.node.tree(), before.unwrap()))
            }),
    {
        if self.is_document_start() {
            return true;
        }
        if !self.is_line_start() {
            return false;
        }
        let b = self.inner.biased_to_end(&self.root_node);
        proof {
            assert(b.node.wf() && b.node.tree() == self.inner.node.tree());
        }
        b.is_paragraph_end()
    }

    /// Whether a page starts here: only at the start of the text.
    pub fn is_page_start(&self) -> (r: bool)
        requires
            self.wf(),
        ensures
            r ==> self.inner.character_index == 0,
            r == (self.inner.character_index == 0
                && crate::text::preceding_box(self.inner.node, self.root_node.id_view()) is None),
    {
        self.is_document_start()
    }

    /// Whether the position is at the start of the text.
    pub fn is_document_start(&self) -> (r: bool)
        requires
            self.wf(),
        ensures
            r ==> self.inner.character_index == 0,
            r == (self.inner.character_index == 0
                && crate::text::preceding_box(self.inner.node, self.root_node.id_view()) is None),
    {
        self.inner.is_document_start(&self.root_node)
    }

    /// Whether the position is at the end of the text.
    pub fn is_document_end(&self) -> (r: bool)
        requires
            self.wf(),
        ensures
            r ==> self.inner.character_index == self.inner.character_count(),
            r == (self.inner.character_index == self.inner.character_count()
                && crate::text::following_box(self.inner.node, self.root_node.id_view()) is None),
    {
        self.inner.is_document_end(&self.root_node)
    }

    /// The empty range at the position.
    pub fn to_degenerate_range(&self) -> (r: Range<'a>)
        requires
            self.wf(),
        ensures
            r.wf(),
            r.node == self.root_node,
            r.start == self.inner,
            r.end == self.inner,
    {
        Range::new(self.root_node, self.inner, self.inner)
    }

    /// One character forward: the character after the position, taken at
    /// the start of the next box when the position ends its own, then
    /// normalized.
    pub fn forward_by_character(&self) -> (r: Position<'a>)
        requires
            self.wf(),
            self.inner.character_index < usize::MAX,
        ensures
            exists|p: InnerPosition<'a>| #[trigger] start_bias_of(self.inner, p)
                && normal_form_of(InnerPosition { node: p.node, character_index: (p.character_index + 1) as usize }, r.inner),
            self.moved_to(r, r.inner),
            spot_of(r.inner) == crate::text::spot_normalized(self.root_node.tree(), self.root_node.id_view(), (crate::text::spot_start_biased(self.root_node.tree(), self.root_node.id_view(), spot_of(self.inner)).0, crate::text::spot_start_biased(self.root_node.tree(), self.root_node.id_view(), spot_of(self.inner)).1 + 1)),
    {
        let pos = self.inner.biased_to_start(&self.root_node);
        assert(spot_of(pos) == crate::text::spot_start_biased(self.root_node.tree(), self.root_node.id_view(), spot_of(self.inner)));
        let next = InnerPosition { node: pos.node, character_index: pos.character_index + 1 };
        let inner = next.normalized(&self.root_node);
        assert(start_bias_of(self.inner, pos));
        Position { root_node: self.root_node, inner }
    }

    /// One character back: the character before the position, taken at
    /// the end of the previous box when the position starts its own, then
    /// normalized; at the very start of the text it stays there.
    pub fn backward_by_character(&self) -> (r: Position<'a>)
        requires
            self.wf(),
        ensures
            exists|p: InnerPosition<'a>| #[trigger] end_bias_of(self.inner, p) && (if p.character_index > 0 {
                normal_form_of(InnerPosition { node: p.node, character_index: (p.character_index - 1) as usize }, r.inner)
            } else {
                normal_form_of(p, r.inner)
            }),
            self.moved_to(r, r.inner),
            spot_of(r.inner) == crate::text::spot_normalized(self.root_node.tree(), self.root_node.id_view(),
                if crate::text::spot_end_biased(self.root_node.tree(), self.root_node.id_view(), spot_of(self.inner)).1 > 0 { (crate::text::spot_end_biased(self.root_node.tree(), self.root_node.id_view(), spot_of(self.inner)).0, crate::text::spot_end_biased(self.root_node.tree(), self.root_node.id_view(), spot_of(self.inner)).1 - 1) } else { crate::text::spot_end_biased(self.root_node.tree(), self.root_node.id_view(), spot_of(self.inner)) }),
    {
        let pos = self.inner.biased_to_end(&self.root_node);
        assert(end_bias_of(self.inner, pos));
        assert(spot_of(pos) == crate::text::spot_end_biased(self.root_node.tree(), self.root_node.id_view(), spot_of(self.inner)));
        let inner = if pos.character_index > 0 {
            let previous = InnerPosition { node: pos.node, character_index: pos.character_index - 1 };
            previous.normalized(&self.root_node)
        } else {
            pos.normalized(&self.root_node)
        };
        Position { root_node: self.root_node, inner }
    }

    /// To the next format boundary: the end of the text.
    pub fn forward_by_format(&self) -> (r: Position<'a>)
        requires
            self.wf(),
        ensures
            self.moved_to(r, r.inner),
            last_text_box(self.root_node) is Some ==> r.inner.node.id_view() == last_text_box(self.root_node).unwrap()
                && r.inner.character_index == r.inner.character_count(),
            last_text_box(self.root_node) is None ==> r.inner == self.inner,
    {
        self.forward_by_document()
    }

    /// To the previous format boundary: the start of the text.
    pub fn backward_by_format(&self) -> (r: Position<'a>)
        requires
            self.wf(),
        ensures
            self.moved_to(r, r.inner),
            first_text_box(self.root_node) is Some ==> r.inner.node.id_view() == first_text_box(self.root_node).unwrap()
                && r.inner.character_index == 0,
            first_text_box(self.root_node) is None ==> r.inner == self.inner,
    {
        self.backward_by_document()
    }

    /// To the end of the word: the end of the word that goes past the
    /// position (taken at the start of the next box when the position ends
    /// its own), normalized.
    pub fn forward_by_word(&self) -> (r: Position<'a>)
        requires
            self.wf(),
        ensures
            exists|p: InnerPosition<'a>, w: InnerPosition<'a>| #[trigger] start_bias_of(self.inner, p)
                && w.node == p.node
                && (crate::text::word_end_after(p.word_lengths(), p.character_index as int, 0) <= usize::MAX
                    ==> w.character_index == crate::text::word_end_after(p.word_lengths(), p.character_index as int, 0))
                && #[trigger] normal_form_of(w, r.inner),
            self.moved_to(r, r.inner),
            crate::text::word_end_after(crate::text::spot_word_lengths(self.root_node.tree(), crate::text::spot_start_biased(self.root_node.tree(), self.root_node.id_view(), spot_of(self.inner)).0), crate::text::spot_start_biased(self.root_node.tree(), self.root_node.id_view(), spot_of(self.inner)).1, 0) <= usize::MAX
                ==> spot_of(r.inner) == crate::text::spot_normalized(self.root_node.tree(), self.root_node.id_view(), (crate::text::spot_start_biased(self.root_node.tree(), self.root_node.id_view(), spot_of(self.inner)).0,
                    crate::text::word_end_after(crate::text::spot_word_lengths(self.root_node.tree(), crate::text::spot_start_biased(self.root_node.tree(), self.root_node.id_view(), spot_of(self.inner)).0), crate::text::spot_start_biased(self.root_node.tree(), self.root_node.id_view(), spot_of(self.inner)).1, 0))),
    {
        let pos = self.inner.biased_to_start(&self.root_node);
        assert(spot_of(pos) == crate::text::spot_start_biased(self.root_node.tree(), self.root_node.id_view(), spot_of(self.inner)));
        let w = pos.word_end();
        let inner = w.normalized(&self.root_node);
        assert(start_bias_of(self.inner, pos) && normal_form_of(w, inner));
        Position { root_node: self.root_node, inner }
    }

    /// To the start of the word: the start of the word that ends at or
    /// after the position (taken at the end of the previous box when the
    /// position starts its own), normalized.
    pub fn backward_by_word(&self) -> (r: Position<'a>)
        requires
            self.wf(),
        ensures
            exists|p: InnerPosition<'a>, w: InnerPosition<'a>| #[trigger] end_bias_of(self.inner, p)
                && w.node == p.node
                && w.character_index == crate::text::word_start_before(p.word_lengths(), p.character_index as int, 0)
                && #[trigger] normal_form_of(w, r.inner),
            self.moved_to(r, r.inner),
            spot_of(r.inner) == crate::text::spot_normalized(self.root_node.tree(), self.root_node.id_view(), (crate::text::spot_end_biased(self.root_node.tree(), self.root_node.id_view(), spot_of(self.inner)).0,
                crate::text::word_start_before(crate::text::spot_word_lengths(self.root_node.tree(), crate::text::spot_end_biased(self.root_node.tree(), self.root_node.id_view(), spot_of(self.inner)).0), crate::text::spot_end_biased(self.root_node.tree(), self.root_node.id_view(), spot_of(self.inner)).1, 0))),
    {
        let pos = self.inner.biased_to_end(&self.root_node);
        assert(spot_of(pos) == crate::text::spot_end_biased(self.root_node.tree(), self.root_node.id_view(), spot_of(self.inner)));
        let w = pos.previous_word_start();
        let inner = w.normalized(&self.root_node);
        assert(end_bias_of(self.inner, pos) && normal_form_of(w, inner));
        Position { root_node: self.root_node, inner }
    }

    /// To the end of the line (from the position taken at the start of the
    /// next box when it ends its own), normalized.
    pub fn forward_by_line(&self) -> (r: Position<'a>)
        requires
            self.wf(),
        ensures
            exists|p: InnerPosition<'a>, l: InnerPosition<'a>| #[trigger] start_bias_of(self.inner, p)
                && line_end_of(p, l) && #[trigger] normal_form_of(l, r.inner),
            self.moved_to(r, r.inner),
            spot_of(r.inner) == line_step(self.root_node.tree(), self.root_node.id_view(), spot_of(self.inner)),
    {
        let ghost t = self.root_node.tree();
        let ghost root = self.root_node.id_view();
        let pos = self.inner.biased_to_start(&self.root_node);
        assert(spot_of(pos) == spot_start_biased(t, root, spot_of(self.inner)));
        let l = pos.line_end();
        proof { crate::ids::lemma_key_roundtrip(l.node.id_view()); }
        assert(spot_of(l) == spot_line_end(t, spot_of(pos)));
        let inner = l.normalized(&self.root_node);
        assert(start_bias_of(self.inner, pos) && line_end_of(pos, l) && normal_form_of(l, inner));
        Position { root_node: self.root_node, inner }
    }

    /// To the start of the line (from the position taken at the end of the
    /// previous box when it starts its own), normalized.
    pub fn backward_by_line(&self) -> (r: Position<'a>)
        requires
            self.wf(),
        ensures
            exists|p: InnerPosition<'a>, l: InnerPosition<'a>| #[trigger] end_bias_of(self.inner, p)
                && line_start_of(p, l) && #[trigger] normal_form_of(l, r.inner),
            self.moved_to(r, r.inner),
            spot_of(r.inner) == line_back_step(self.root_node.tree(), self.root_node.id_view(), spot_of(self.inner)),
    {
        let ghost t = self.root_node.tree();
        let ghost root = self.root_node.id_view();
        let pos = self.inner.biased_to_end(&self.root_node);
        assert(spot_of(pos) == crate::text::spot_end_biased(t, root, spot_of(self.inner)));
        let l = pos.line_start();
        proof { crate::ids::lemma_key_roundtrip(l.node.id_view()); }
        assert(spot_of(l) == crate::text::spot_line_start(t, spot_of(pos)));
        let inner = l.normalized(&self.root_node);
        assert(end_bias_of(self.inner, pos) && line_start_of(pos, l) && normal_form_of(l, inner));
        Position { root_node: self.root_node, inner }
    }

    /// To the end of the paragraph: line by line, until the end of the
    /// text or a line that ends a paragraph (at most one more line than the
    /// tree has nodes).
    pub fn forward_by_paragraph(&self) -> (r: Position<'a>)
        requires
            self.wf(),
        ensures
            self.moved_to(r, r.inner),
            exists|k: nat| {
                &&& 1 <= k <= self.root_node.tree().nodes_view().dom().len() + 1
                &&& spot_of(r.inner) == #[trigger] line_steps(self.root_node.tree(), self.root_node.id_view(), spot_of(self.inner), k)
                &&& forall|j: nat| 1 <= j < k ==> !paragraph_stop(self.root_node.tree(), self.root_node.id_view(),
                    #[trigger] line_steps(self.root_node.tree(), self.root_node.id_view(), spot_of(self.inner), j))
                &&& paragraph_stop(self.root_node.tree(), self.root_node.id_view(),
                    line_steps(self.root_node.tree(), self.root_node.id_view(), spot_of(self.inner), k))
                    || k == self.root_node.tree().nodes_view().dom().len() + 1
            },
    {
        let ghost t = self.root_node.tree();
        let ghost root = self.root_node.id_view();
        let ghost s0 = spot_of(self.inner);
        let ghost mut steps: nat = 0;
        let mut current = *self;
        let mut fuel: usize = self.root_node.tree_state().node_count();
        let ghost n = fuel as nat;
        loop
            invariant_except_break
                steps + fuel == n,
                forall|j: nat| 1 <= j <= steps ==> !paragraph_stop(t, root, #[trigger] line_steps(t, root, s0, j)),
            invariant
                self.moved_to(current, current.inner),
                t == self.root_node.tree(),
                root == self.root_node.id_view(),
                s0 == spot_of(self.inner),
                n == t.nodes_view().dom().len(),
                spot_of(current.inner) == line_steps(t, root, s0, steps),
            ensures
                self.moved_to(current, current.inner),
                1 <= steps <= n + 1,
                spot_of(current.inner) == line_steps(t, root, s0, steps),
                forall|j: nat| 1 <= j < steps ==> !paragraph_stop(t, root, #[trigger] line_steps(t, root, s0, j)),
                paragraph_stop(t, root, line_steps(t, root, s0, steps)) || steps == n + 1,
            decreases fuel,
        {
            current = current.forward_by_line();
            proof { steps = steps + 1; }
            let at_end = current.is_document_end();
            let biased = current.inner.biased_to_end(&self.root_node);
            assert(spot_of(biased) == crate::text::spot_end_biased(t, root, spot_of(current.inner)));
            if at_end || biased.is_paragraph_end() {
                assert(paragraph_stop(t, root, spot_of(current.inner)));
                break;
            }
            assert(!paragraph_stop(t, root, spot_of(current.inner)));
            if fuel == 0 {
                break;
            }
            fuel = fuel - 1;
        }
        proof {
            assert(spot_of(current.inner) == line_steps(t, root, s0, steps));
        }
        current
    }

    /// To the start of the paragraph: line by line back, until a position
    /// that starts a paragraph (at most one more line than the tree has
    /// nodes).
    pub fn backward_by_paragraph(&self) -> (r: Position<'a>)
        requires
            self.wf(),
        ensures
            self.moved_to(r, r.inner),
            exists|k: nat| {
                &&& 1 <= k <= self.root_node.tree().nodes_view().dom().len() + 1
                &&& spot_of(r.inner) == #[trigger] line_back_steps(self.root_node.tree(), self.root_node.id_view(),
                    spot_of(self.inner), k)
                &&& forall|j: nat| 1 <= j < k ==> !paragraph_start_spot(self.root_node.tree(), self.root_node.id_view(),
                    #[trigger] line_back_steps(self.root_node.tree(), self.root_node.id_view(), spot_of(self.inner), j))
                &&& paragraph_start_spot(self.root_node.tree(), self.root_node.id_view(),
                    line_back_steps(self.root_node.tree(), self.root_node.id_view(), spot_of(self.inner), k))
                    || k == self.root_node.tree().nodes_view().dom().len() + 1
            },
    {
        let ghost t = self.root_node.tree();
        let ghost root = self.root_node.id_view();
        let ghost s0 = spot_of(self.inner);
        let ghost mut steps: nat = 0;
        let mut current = *self;
        let mut fuel: usize = self.root_node.tree_state().node_count();
        let ghost n = fuel as nat;
        loop
            invariant_except_break
                steps + fuel == n,
                forall|j: nat| 1 <= j <= steps ==> !paragraph_start_spot(t, root, #[trigger] line_back_steps(t, root, s0, j)),
            invariant
                self.moved_to(current, current.inner),
                t == self.root_node.tree(),
                root == self.root_node.id_view(),
                s0 == spot_of(self.inner),
                n == t.nodes_view().dom().len(),
                spot_of(current.inner) == line_back_steps(t, root, s0, steps),
            ensures
                self.moved_to(current, current.inner),
                1 <= steps <= n + 1,
                spot_of(current.inner) == line_back_steps(t, root, s0, steps),
                forall|j: nat| 1 <= j < steps ==> !paragraph_start_spot(t, root, #[trigger] line_back_steps(t, root, s0, j)),
                paragraph_start_spot(t, root, line_back_steps(t, root, s0, steps)) || steps == n + 1,
            decreases fuel,
        {
            current = current.backward_by_line();
            proof { steps = steps + 1; }
            if current.is_paragraph_start() {
                assert(paragraph_start_spot(t, root, spot_of(current.inner)));
                break;
            }
            assert(!paragraph_start_spot(t, root, spot_of(current.inner)));
            if fuel == 0 {
                break;
            }
            fuel = fuel - 1;
        }
        current
    }

    /// To the next page boundary: the end of the text.
    pub fn forward_by_page(&self) -> (r: Position<'a>)
        requires
            self.wf(),
        ensures
            self.moved_to(r, r.inner),
    {
        self.forward_by_document()
    }

    /// To the previous page boundary: the start of the text.
    pub fn backward_by_page(&self) -> (r: Position<'a>)
        requires
            self.wf(),
        ensures
            self.moved_to(r, r.inner),
    {
        self.backward_by_document()
    }

    /// To the end of the text: the end of the root's last inline text box
    /// (the position stays where it is if the root holds none).
    pub fn forward_by_document(&self) -> (r: Position<'a>)
        requires
            self.wf(),
        ensures
            self.moved_to(r, r.inner),
            r.inner == self.inner || (text_box_of(r.inner.node, self.root_node)
                && r.inner.character_index == r.inner.character_count()),
            last_text_box(self.root_node) is Some ==> r.inner.node.id_view() == last_text_box(self.root_node).unwrap()
                && r.inner.character_index == r.inner.character_count(),
            last_text_box(self.root_node) is None ==> r.inner == self.inner,
    {
        match self.root_node.document_end() {
            Some(inner) => Position { root_node: self.root_node, inner },
            None => *self,
        }
    }

    /// To the start of the text: the start of the root's first inline text
    /// box (the position stays where it is if the root holds none).
    pub fn backward_by_document(&self) -> (r: Position<'a>)
        requires
            self.wf(),
        ensures
            self.moved_to(r, r.inner),
            r.inner == self.inner || (text_box_of(r.inner.node, self.root_node) && r.inner.character_index == 0),
            first_text_box(self.root_node) is Some ==> r.inner.node.id_view() == first_text_box(self.root_node).unwrap()
                && r.inner.character_index == 0,
            first_text_box(self.root_node) is None ==> r.inner == self.inner,
    {
        match self.root_node.document_start() {
            Some(inner) => Position { root_node: self.root_node, inner },
            None => *self,
        }
    }

    /// How the position is placed against `other`: not comparable when
    /// they are in the text of different nodes, otherwise by their ordering
    /// keys in that text.
    pub fn partial_cmp(&self, other: &Position<'a>) -> (r: Option<Ordering>)
        requires
            self.wf(),
            other.wf(),
        ensures
            self.root_node.id_view() != other.root_node.id_view() ==> r is None,
            self.root_node.id_view() == other.root_node.id_view() ==> exists|order: int|
                #[trigger] placed_in_order(self.root_node.id_view(), self.inner, other.inner, order)
                && r == Some(ordering_of(order)),
    {
        if self.root_node.id() != other.root_node.id() {
            return None;
        }
        let a = self.inner.comparable(&self.root_node);
        let b = other.inner.comparable(&self.root_node);
        let c = key_compare(&a, &b);
        assert(placed_in_order(self.root_node.id_view(), self.inner, other.inner, widened(c)));
        if c < 0 {
            Some(Ordering::Less)
        } else if c > 0 {
            Some(Ordering::Greater)
        } else {
            Some(Ordering::Equal)
        }
    }
}

/// `l` is the end of the line of `p`: the end of the box reached by
/// following the boxes after `p`'s on its line.
pub open spec fn line_end_of<'a>(p: InnerPosition<'a>, l: InnerPosition<'a>) -> bool {
    &&& l.node.wf()
    &&& l.node.tree() == p.node.tree()
    &&& l.character_index == l.character_count()
    &&& node_key(l.node.id_view()) == crate::text::line_walk(p.node.tree().nodes_view(), node_key(p.node.id_view()),
        crate::schema::PROP_NEXT_ON_LINE, p.node.tree().nodes_view().dom().len())
}

/// `l` is the start of the line of `p`: the start of the box reached by
/// following the boxes before `p`'s on its line.
pub open spec fn line_start_of<'a>(p: InnerPosition<'a>, l: InnerPosition<'a>) -> bool {
    &&& l.node.wf()
    &&& l.node.tree() == p.node.tree()
    &&& l.character_index == 0
    &&& node_key(l.node.id_view()) == crate::text::line_walk(p.node.tree().nodes_view(), node_key(p.node.id_view()),
        crate::schema::PROP_PREVIOUS_ON_LINE, p.node.tree().nodes_view().dom().len())
}

/// Two positions are the same when their roots, boxes and character
/// indices are.
pub open spec fn same_position(a: Position, b: Position) -> bool {
    &&& a.root_node.id_view() == b.root_node.id_view()
    &&& a.inner.node.id_view() == b.inner.node.id_view()
    &&& a.inner.character_index == b.inner.character_index
}

impl<'a> PartialEq for Position<'a> {
    fn eq(&self, other: &Self) -> (r: bool) {
        self.root_node.id() == other.root_node.id() && self.inner.node.id() == other.inner.node.id()
            && self.inner.character_index == other.inner.character_index
    }
}

impl<'a> PartialEqSpecImpl for Position<'a> {
    open spec fn obeys_eq_spec() -> bool {
        true
    }

    open spec fn eq_spec(&self, other: &Position<'a>) -> bool {
        same_position(*self, *other)
    }
}

/// Whether a node without a stored value reads one from its text: it is
/// static text, a text input or a document, holds inline text boxes, and is
/// not multiline.
pub open spec fn has_text_value(node: NodeRef) -> bool {
    let role = node.state_view().data.role;
    &&& role == Role::StaticText || role == Role::TextInput || role == Role::Document
    &&& first_text_box(node) is Some
    &&& last_text_box(node) is Some
    &&& role != Role::MultilineTextInput
}

/// The first inline text box in the text of `node`, if there is one.
pub open spec fn first_text_box(node: NodeRef) -> Option<FullNodeId> {
    box_only(node.tree(), first_shown_in(node.tree(), stored_children(node.tree(), node.id_view()),
        text_decision(node.id_view()), node.tree().nodes_view().dom().len()))
}

/// The last inline text box in the text of `node`, if there is one.
pub open spec fn last_text_box(node: NodeRef) -> Option<FullNodeId> {
    box_only(node.tree(), last_shown_in(node.tree(), stored_children(node.tree(), node.id_view()),
        text_decision(node.id_view()), node.tree().nodes_view().dom().len()))
}

impl<'a> NodeRef<'a> {
    /// The start of the node's text: the start of its first inline text
    /// box, if it holds one.
    pub fn document_start(&self) -> (r: Option<InnerPosition<'a>>)
        requires
            self.wf(),
        ensures
            r is Some ==> text_box_of(r.unwrap().node, *self) && r.unwrap().character_index == 0,
            r is Some <==> first_text_box(*self) is Some,
            r is Some ==> r.unwrap().node.id_view() == first_text_box(*self).unwrap(),
    {
        match self.first_inline_text_box() {
            Some(node) => Some(InnerPosition { node, character_index: 0 }),
            None => None,
        }
    }

    /// The end of the node's text: the end of its last inline text box, if
    /// it holds one.
    pub fn document_end(&self) -> (r: Option<InnerPosition<'a>>)
        requires
            self.wf(),
        ensures
            r is Some ==> text_box_of(r.unwrap().node, *self)
                && r.unwrap().character_index == r.unwrap().character_count(),
            r is Some <==> last_text_box(*self) is Some,
            r is Some ==> r.unwrap().node.id_view() == last_text_box(*self).unwrap(),
    {
        match self.last_inline_text_box() {
            Some(node) => {
                let count = node.data().character_lengths().len();
                Some(InnerPosition { node, character_index: count })
            },
            None => None,
        }
    }
}

/// The bytes from `a` to `b` of `bytes` can be cut out as text: `a` falls on
/// a character boundary, and so does `b` in what follows `a`.
pub open spec fn cuts_cleanly(bytes: Seq<u8>, a: int, b: int) -> bool {
    &&& 0 <= a <= b <= bytes.len()
    &&& is_char_boundary(bytes, a)
    &&& is_char_boundary(bytes.subrange(a, bytes.len() as int), b - a)
}

/// The text of characters `from` to `to` of a box whose text is `value`
/// and whose characters have the byte lengths `lengths`: nothing when the
/// bounds are equal, all of it when they are the ends of the box, and
/// otherwise the bytes that the lengths before `from` and up to `to` mark
/// (nothing when those bounds are out of order or do not cut the text
/// cleanly).
pub open spec fn text_between_view(value: Seq<char>, lengths: Seq<u8>, from: int, to: int) -> Seq<char> {
    let bytes = encode_utf8(value);
    let a = length_sum(lengths, from);
    let b = length_sum(lengths, to);
    if from == to {
        Seq::empty()
    } else if from == 0 && to == lengths.len() {
        value
    } else if 0 <= from <= to <= lengths.len() && cuts_cleanly(bytes, a, b) {
        decode_utf8(bytes.subrange(a, b))
    } else {
        Seq::empty()
    }
}

/// Sums the first `n` lengths (at most `lengths.len()`).
fn sum_lengths(lengths: &[u8], n: usize) -> (r: u128)
    requires
        n <= lengths@.len(),
    ensures
        r == length_sum(lengths@, n as int),
        r <= 255 * n,
{
    let mut total: u128 = 0;
    let mut i: usize = 0;
    while i < n
        invariant
            i <= n,
            n <= lengths@.len(),
            total == length_sum(lengths@, i as int),
            total <= 255 * i,
        decreases n - i,
    {
        total = total + lengths[i] as u128;
        i = i + 1;
    }
    total
}

/// The text of characters `from` to `to` of a box with text `value` and
/// character byte lengths `lengths`.
fn text_between<'v>(value: &'v str, lengths: &[u8], from: usize, to: usize) -> (r: &'v str)
    ensures
        r@ == text_between_view(value@, lengths@, from as int, to as int),
{
    broadcast use vstd::utf8::encode_utf8_decode_utf8;
    proof {
        reveal_strlit("");
    }
    if from == to {
        return "";
    }
    if from == 0 && to == lengths.len() {
        return value;
    }
    if !(from <= to && to <= lengths.len()) {
        return "";
    }
    let a = sum_lengths(lengths, from);
    let b = sum_lengths(lengths, to);
    proof {
        crate::text::lemma_length_sum_monotonic(lengths@, from as int, to as int);
    }
    let byte_count = value.as_bytes().len();
    if b > byte_count as u128 {
        return "";
    }
    let a = a as usize;
    let b = b as usize;
    if !value.is_char_boundary(a) {
        return "";
    }
    let (_, rest) = value.split_at(a);
    if !rest.is_char_boundary(b - a) {
        return "";
    }
    let (piece, _) = rest.split_at(b - a);
    proof {
        assert(piece.spec_bytes() == value.spec_bytes().subrange(a as int, b as int));
    }
    piece
}

/// The part of the range's text in `node`: from the range's start if the
/// node holds it (else from the node's start) to the range's end if the
/// node holds it (else to the node's end); nothing for a node without text.
pub open spec fn range_piece<'a>(range: Range<'a>, node: NodeRef<'a>) -> Seq<char> {
    let lengths = length_slice_value(node.state_view().data.prop(PROP_CHARACTER_LENGTHS));
    let from = if node.id_view() == range.start.node.id_view() { range.start.character_index as int } else { 0 };
    let to = if node.id_view() == range.end.node.id_view() { range.end.character_index as int } else { lengths.len() as int };
    match string_value(node.state_view().data.prop(PROP_VALUE)) {
        Some(value) => text_between_view(value, lengths, from, to),
        None => Seq::empty(),
    }
}

/// The parts of the range's text in the boxes `boxes`, one after another.
pub open spec fn range_text_of<'a>(range: Range<'a>, boxes: Seq<NodeRef<'a>>) -> Seq<char>
    decreases boxes.len(),
{
    if boxes.len() == 0 {
        Seq::empty()
    } else {
        range_text_of(range, boxes.drop_last()) + range_piece(range, boxes.last())
    }
}

/// A range between two positions in the text of a node.
#[derive(Clone, Copy)]
pub struct Range<'a> {
    pub node: NodeRef<'a>,
    pub start: InnerPosition<'a>,
    pub end: InnerPosition<'a>,
}

impl<'a> Range<'a> {
    /// The node and the boxes of both ends are stored nodes of one tree.
    pub open spec fn wf(&self) -> bool {
        &&& self.node.wf()
        &&& self.start.node.wf()
        &&& self.end.node.wf()
        &&& self.start.node.tree() == self.node.tree()
        &&& self.end.node.tree() == self.node.tree()
    }

    /// The range from `start` to `end` in the text of `node`, its ends
    /// swapped if `start` comes after `end`.
    pub fn new(node: NodeRef<'a>, start: InnerPosition<'a>, end: InnerPosition<'a>) -> (r: Range<'a>)
        requires
            node.wf(),
            start.node.wf(),
            end.node.wf(),
            start.node.tree() == node.tree(),
            end.node.tree() == node.tree(),
        ensures
            r.wf(),
            r.node == node,
            exists|order: int| #[trigger] placed_in_order(node.id_view(), start, end, order)
                && if order > 0 {
                    r.start == end && r.end == start
                } else {
                    r.start == start && r.end == end
                },
    {
        let a = start.comparable(&node);
        let b = end.comparable(&node);
        let c = key_compare(&a, &b);
        assert(placed_in_order(node.id_view(), start, end, c as int));
        if c > 0 {
            Range { node, start: end, end: start }
        } else {
            Range { node, start, end }
        }
    }

    /// The node whose text the range is in.
    pub fn node(&self) -> (r: &NodeRef<'a>)
        ensures
            *r == self.node,
    {
        &self.node
    }

    /// The start of the range.
    pub fn start(&self) -> (r: Position<'a>)
        ensures
            r.root_node == self.node,
            r.inner == self.start,
    {
        Position { root_node: self.node, inner: self.start }
    }

    /// The end of the range.
    pub fn end(&self) -> (r: Position<'a>)
        ensures
            r.root_node == self.node,
            r.inner == self.end,
    {
        Position { root_node: self.node, inner: self.end }
    }

    /// Whether both ends have the same ordering key.
    pub fn is_degenerate(&self) -> (r: bool)
        requires
            self.wf(),
        ensures
            exists|order: int| #[trigger] placed_in_order(self.node.id_view(), self.start, self.end, order)
                && r == (order == 0),
    {
        let a = self.start.comparable(&self.node);
        let b = self.end.comparable(&self.node);
        let c = key_compare(&a, &b);
        assert(placed_in_order(self.node.id_view(), self.start, self.end, c as int));
        c == 0
    }

    /// The part of the range's text in `node`.
    fn piece(&self, node: &NodeRef<'a>) -> (r: &'a str)
        requires
            node.wf(),
        ensures
            r@ == range_piece(*self, *node),
    {
        proof {
            reveal_strlit("");
        }
        let lengths = node.data().character_lengths();
        let from: usize = if node.id() == self.start.node.id() { self.start.character_index } else { 0 };
        let to: usize = if node.id() == self.end.node.id() { self.end.character_index } else { lengths.len() };
        match node.raw_value() {
            Some(value) => text_between(value, lengths, from, to),
            None => "",
        }
    }

    /// The text of the range: the parts of it in the boxes from the one
    /// holding the start to the one holding the end, one after another (at
    /// most one box more than the tree has nodes). A degenerate range is
    /// read from its start alone.
    pub fn text(&self) -> (r: String)
        requires
            self.wf(),
        ensures
            exists|boxes: Seq<NodeRef<'a>>| #[trigger] range_text_of(*self, boxes) == r@ && boxes.len() >= 1
                && forall|i: int| 0 <= i < boxes.len() ==> (#[trigger] boxes[i]).wf() && boxes[i].tree() == self.node.tree(),
    {
        let (start, end) = if self.is_degenerate() {
            (self.start, self.start)
        } else {
            (self.start.biased_to_start(&self.node), self.end.biased_to_end(&self.node))
        };
        let mut result = String::new();
        let first = self.piece(&start.node);
        result.append(first);
        let ghost mut boxes: Seq<NodeRef<'a>> = seq![start.node];
        proof {
            assert(boxes.drop_last() == Seq::<NodeRef<'a>>::empty());
            assert(range_text_of(*self, Seq::<NodeRef<'a>>::empty()) == Seq::<char>::empty());
            assert(result@ == range_text_of(*self, boxes));
        }
        if start.node.id() != end.node.id() {
            let mut current = start.node;
            let mut fuel: usize = self.node.tree_state().node_count();
            loop
                invariant
                    current.wf(),
                    current.tree() == self.node.tree(),
                    self.wf(),
                    boxes.len() >= 1,
                    result@ == range_text_of(*self, boxes),
                    forall|i: int| 0 <= i < boxes.len() ==> (#[trigger] boxes[i]).wf() && boxes[i].tree() == self.node.tree(),
                decreases fuel,
            {
                if fuel == 0 {
                    break;
                }
                fuel = fuel - 1;
                match current.next_inline_text_box(&self.node) {
                    Some(node) => {
                        let part = self.piece(&node);
                        result.append(part);
                        proof {
                            let old_boxes = boxes;
                            boxes = boxes.push(node);
                            assert(boxes.drop_last() == old_boxes);
                        }
                        if node.id() == end.node.id() {
                            break;
                        }
                        current = node;
                    },
                    None => {
                        break;
                    },
                }
            }
        }
        result
    }

    /// The value that `f` gives the range's boxes, walked as for `text`:
    /// the one value they all share, or mixed as soon as one box gives
    /// another.
    pub fn attribute<F, T>(&self, f: F) -> (r: AttributeValue<T>)
        where
            F: Fn(&NodeRef<'a>) -> T,
            T: PartialEq,
        requires
            self.wf(),
            forall|n: &NodeRef<'a>| #[trigger] f.requires((n,)),
        ensures
            r is Single ==> exists|n: NodeRef<'a>| n.wf() && n.tree() == self.node.tree()
                && #[trigger] f.ensures((&n,), r->0),
            T::obeys_eq_spec() && r is Mixed ==> exists|n1: NodeRef<'a>, v1: T, n2: NodeRef<'a>, v2: T|
                n1.wf() && n1.tree() == self.node.tree() && n2.wf() && n2.tree() == self.node.tree()
                && #[trigger] f.ensures((&n1,), v1) && #[trigger] f.ensures((&n2,), v2) && !v1.eq_spec(&v2),
    {
        let (start, end) = if self.is_degenerate() {
            (self.start, self.start)
        } else {
            (self.start.biased_to_start(&self.node), self.end.biased_to_end(&self.node))
        };
        let value = f(&start.node);
        let ghost first = start.node;
        assert(first.wf() && first.tree() == self.node.tree() && f.ensures((&first,), value));
        if start.node.id() != end.node.id() {
            let mut current = start.node;
            let mut fuel: usize = self.node.tree_state().node_count();
            loop
                invariant
                    current.wf(),
                    current.tree() == self.node.tree(),
                    self.wf(),
                    forall|n: &NodeRef<'a>| #[trigger] f.requires((n,)),
                    first.wf() && first.tree() == self.node.tree() && f.ensures((&first,), value),
                decreases fuel,
            {
                if fuel == 0 {
                    break;
                }
                fuel = fuel - 1;
                match current.next_inline_text_box(&self.node) {
                    Some(node) => {
                        let here = f(&node);
                        if value != here {
                            let r = AttributeValue::Mixed;
                            proof {
                                if T::obeys_eq_spec() {
                                    assert(!value.eq_spec(&here));
                                    assert(first.wf() && first.tree() == self.node.tree() && node.wf()
                                        && node.tree() == self.node.tree() && f.ensures((&first,), value)
                                        && f.ensures((&node,), here) && !value.eq_spec(&here));
                                }
                            }
                            return r;
                        }
                        if node.id() == end.node.id() {
                            break;
                        }
                        current = node;
                    },
                    None => {
                        break;
                    },
                }
            }
        }
        assert(first.wf() && first.tree() == self.node.tree() && f.ensures((&first,), value));
        let r = AttributeValue::Single(value);
        assert(r->0 == value);
        r
    }

    /// The stored form of the range: the node's identifier, the stored
    /// forms of both ends, and their ordering keys.
    pub fn downgrade(&self) -> (r: WeakRange)
        requires
            self.wf(),
        ensures
            r.node_id == self.node.id_view(),
            r.start == self.start.downgrade_view(),
            r.end == self.end.downgrade_view(),
            position_key(self.node.id_view(), self.start, r.start_comparable.0@, r.start_comparable.1),
            position_key(self.node.id_view(), self.end, r.end_comparable.0@, r.end_comparable.1),
    {
        WeakRange {
            node_id: self.node.id(),
            start: self.start.downgrade(),
            end: self.end.downgrade(),
            start_comparable: self.start.comparable(&self.node),
            end_comparable: self.end.comparable(&self.node),
        }
    }

    /// Moves the start to `pos`; if that is not before the end, the end
    /// moves there too.
    pub fn set_start(&mut self, pos: Position<'a>)
        requires
            old(self).wf(),
            pos.wf(),
            pos.root_node.id_view() == old(self).node.id_view(),
            pos.root_node.tree() == old(self).node.tree(),
        ensures
            final(self).wf(),
            final(self).node == old(self).node,
            final(self).start == pos.inner,
            exists|order: int| #[trigger] placed_in_order(old(self).node.id_view(), pos.inner, old(self).end, order)
                && final(self).end == if order >= 0 { pos.inner } else { old(self).end },
    {
        self.start = pos.inner;
        let a = self.start.comparable(&self.node);
        let b = self.end.comparable(&self.node);
        let c = key_compare(&a, &b);
        assert(placed_in_order(self.node.id_view(), self.start, self.end, c as int));
        if c >= 0 {
            self.end = self.start;
        }
    }

    /// Moves the end to `pos`; if the start is not before it, the start
    /// moves there too.
    pub fn set_end(&mut self, pos: Position<'a>)
        requires
            old(self).wf(),
            pos.wf(),
            pos.root_node.id_view() == old(self).node.id_view(),
            pos.root_node.tree() == old(self).node.tree(),
        ensures
            final(self).wf(),
            final(self).node == old(self).node,
            final(self).end == pos.inner,
            exists|order: int| #[trigger] placed_in_order(old(self).node.id_view(), old(self).start, pos.inner, order)
                && final(self).start == if order >= 0 { pos.inner } else { old(self).start },
    {
        self.end = pos.inner;
        let a = self.start.comparable(&self.node);
        let b = self.end.comparable(&self.node);
        let c = key_compare(&a, &b);
        assert(placed_in_order(self.node.id_view(), self.start, self.end, c as int));
        if c >= 0 {
            self.start = self.end;
        }
    }
}

/// Two ranges are the same when their nodes and both ends are.
pub open spec fn same_range(a: Range, b: Range) -> bool {
    &&& a.node.id_view() == b.node.id_view()
    &&& a.start.node.id_view() == b.start.node.id_view()
    &&& a.start.character_index == b.start.character_index
    &&& a.end.node.id_view() == b.end.node.id_view()
    &&& a.end.character_index == b.end.character_index
}

impl<'a> PartialEq for Range<'a> {
    fn eq(&self, other: &Self) -> (r: bool) {
        self.node.id() == other.node.id() && self.start.node.id() == other.start.node.id()
            && self.start.character_index == other.start.character_index
            && self.end.node.id() == other.end.node.id()
            && self.end.character_index == other.end.character_index
    }
}

impl<'a> PartialEqSpecImpl for Range<'a> {
    open spec fn obeys_eq_spec() -> bool {
        true
    }

    open spec fn eq_spec(&self, other: &Range<'a>) -> bool {
        same_range(*self, *other)
    }
}

/// A range kept apart from the tree it was read from: the node's
/// identifier, the stored forms of both ends, and their ordering keys.
#[derive(Debug, PartialEq, Eq)]
pub struct WeakRange {
    pub node_id: FullNodeId,
    pub start: TextPosition,
    pub end: TextPosition,
    pub start_comparable: (Vec<usize>, usize),
    pub end_comparable: (Vec<usize>, usize),
}

impl Clone for WeakRange {
    fn clone(&self) -> (r: WeakRange)
        ensures
            r.node_id == self.node_id,
            r.start == self.start,
            r.end == self.end,
            r.start_comparable.0@ == self.start_comparable.0@,
            r.start_comparable.1 == self.start_comparable.1,
            r.end_comparable.0@ == self.end_comparable.0@,
            r.end_comparable.1 == self.end_comparable.1,
    {
        WeakRange {
            node_id: self.node_id,
            start: self.start,
            end: self.end,
            start_comparable: (self.start_comparable.0.clone(), self.start_comparable.1),
            end_comparable: (self.end_comparable.0.clone(), self.end_comparable.1),
        }
    }
}

impl WeakRange {
    /// The identifier of the node whose text the range is in.
    pub fn node_id(&self) -> (r: FullNodeId)
        ensures
            r == self.node_id,
    {
        self.node_id
    }

    /// The ordering key of the start.
    pub fn start_comparable(&self) -> (r: &(Vec<usize>, usize))
        ensures
            r == &self.start_comparable,
    {
        &self.start_comparable
    }

    /// The ordering key of the end.
    pub fn end_comparable(&self) -> (r: &(Vec<usize>, usize))
        ensures
            r == &self.end_comparable,
    {
        &self.end_comparable
    }

    /// The range's node in `tree_state`, if it is stored there.
    pub fn upgrade_node<'a>(&self, tree_state: &'a TreeState) -> (r: Option<NodeRef<'a>>)
        ensures
            r is Some <==> tree_state.nodes_view().contains_key(node_key(self.node_id)),
            r is Some ==> r.unwrap().wf() && r.unwrap().tree() == *tree_state && r.unwrap().id_view() == self.node_id,
    {
        tree_state.node_by_id(self.node_id)
    }

    /// The range in `tree_state`: present when its node is stored there
    /// and both ends name positions in boxes of the node's tree.
    pub fn upgrade<'a>(&self, tree_state: &'a TreeState) -> (r: Option<Range<'a>>)
        ensures
            r is Some <==> {
                &&& tree_state.nodes_view().contains_key(node_key(self.node_id))
                &&& text_position_valid(*tree_state, self.start, self.node_id.tree_index)
                &&& text_position_valid(*tree_state, self.end, self.node_id.tree_index)
            },
            r is Some ==> {
                &&& r.unwrap().wf()
                &&& r.unwrap().node.tree() == *tree_state
                &&& r.unwrap().node.id_view() == self.node_id
                &&& r.unwrap().start.downgrade_view() == self.start
                &&& r.unwrap().end.downgrade_view() == self.end
                &&& r.unwrap().start.node.id_view().tree_index == self.node_id.tree_index
                &&& r.unwrap().end.node.id_view().tree_index == self.node_id.tree_index
            },
    {
        let node = match self.upgrade_node(tree_state) {
            Some(n) => n,
            None => {
                return None;
            },
        };
        let start = match InnerPosition::upgrade(tree_state, self.start, self.node_id.tree_index) {
            Some(p) => p,
            None => {
                return None;
            },
        };
        let end = match InnerPosition::upgrade(tree_state, self.end, self.node_id.tree_index) {
            Some(p) => p,
            None => {
                return None;
            },
        };
        Some(Range { node, start, end })
    }
}

impl<'a> NodeRef<'a> {
    /// Whether the node's text can be read by ranges: it is static text, a
    /// text field or a document, and holds an inline text box.
    pub fn supports_text_ranges(&self) -> (r: bool)
        requires
            self.wf(),
        ensures
            r == ({
                let role = self.state_view().data.role;
                role == Role::StaticText || role == Role::TextInput || role == Role::Document
            } && first_text_box(*self) is Some),
    {
        let role = self.role();
        if role != Role::StaticText && role != Role::TextInput && role != Role::Document {
            return false;
        }
        self.first_inline_text_box().is_some()
    }

    /// The range over all of the node's text, from the start of its first
    /// inline text box to the end of its last; none if it holds no box.
    pub fn document_range(&self) -> (r: Option<Range<'a>>)
        requires
            self.wf(),
        ensures
            r is Some <==> (first_text_box(*self) is Some && last_text_box(*self) is Some),
            r is Some ==> {
                &&& r.unwrap().wf()
                &&& r.unwrap().node == *self
                &&& text_box_of(r.unwrap().start.node, *self)
                &&& text_box_of(r.unwrap().end.node, *self)
                &&& ({
                    &&& r.unwrap().start.node.id_view() == first_text_box(*self).unwrap()
                    &&& r.unwrap().start.character_index == 0
                    &&& r.unwrap().end.node.id_view() == last_text_box(*self).unwrap()
                    &&& r.unwrap().end.character_index == r.unwrap().end.character_count()
                } || {
                    &&& r.unwrap().start.node.id_view() == last_text_box(*self).unwrap()
                    &&& r.unwrap().start.character_index == r.unwrap().start.character_count()
                    &&& r.unwrap().end.node.id_view() == first_text_box(*self).unwrap()
                    &&& r.unwrap().end.character_index == 0
                })
            },
    {
        let start = match self.document_start() {
            Some(p) => p,
            None => {
                return None;
            },
        };
        let end = match self.document_end() {
            Some(p) => p,
            None => {
                return None;
            },
        };
        Some(Range::new(*self, start, end))
    }

    /// The node's value: its stored value if it has one; otherwise, for a
    /// node whose text ranges can be read and that is not multiline, the
    /// text of its whole range.
    pub fn value(&self) -> (r: Option<String>)
        requires
            self.wf(),
        ensures
            string_value(self.state_view().data.prop(PROP_VALUE)) is Some ==> r is Some
                && r.unwrap()@ == string_value(self.state_view().data.prop(PROP_VALUE)).unwrap(),
            string_value(self.state_view().data.prop(PROP_VALUE)) is None ==> {
                let role = self.state_view().data.role;
                &&& r is Some ==> (role == Role::StaticText || role == Role::TextInput || role == Role::Document)
                &&& r is Some <==> has_text_value(*self)
            },
    {
        match self.raw_value() {
            Some(v) => {
                return Some(v.to_string());
            },
            None => {},
        }
        if self.supports_text_ranges() && !self.is_multiline() {
            match self.document_range() {
                Some(range) => Some(range.text()),
                None => None,
            }
        } else {
            None
        }
    }

    /// Whether the node has a value, stored or read from its text.
    pub fn has_value(&self) -> (r: bool)
        requires
            self.wf(),
        ensures
            string_value(self.state_view().data.prop(PROP_VALUE)) is Some ==> r,
            r == (string_value(self.state_view().data.prop(PROP_VALUE)) is Some || has_text_value(*self)),
    {
        self.value().is_some()
    }

    /// Whether the node has a text selection.
    pub fn has_text_selection(&self) -> (r: bool)
        ensures
            r == (text_selection_value(self.state_view().data.prop(PROP_TEXT_SELECTION)) is Some),
    {
        self.data().text_selection().is_some()
    }

    /// The node's text selection as a range from its anchor to its focus,
    /// ends swapped into order; the anchor and focus must name positions in
    /// boxes of the node's tree.
    pub fn text_selection(&self) -> (r: Option<Range<'a>>)
        requires
            self.wf(),
            text_selection_value(self.state_view().data.prop(PROP_TEXT_SELECTION)) is Some ==> {
                let s = text_selection_value(self.state_view().data.prop(PROP_TEXT_SELECTION)).unwrap();
                &&& text_position_valid(self.tree(), s.anchor, self.id_view().tree_index)
                &&& text_position_valid(self.tree(), s.focus, self.id_view().tree_index)
            },
        ensures
            r is Some <==> text_selection_value(self.state_view().data.prop(PROP_TEXT_SELECTION)) is Some,
            r is Some ==> {
                let s = text_selection_value(self.state_view().data.prop(PROP_TEXT_SELECTION)).unwrap();
                &&& r.unwrap().wf()
                &&& r.unwrap().node == *self
                &&& ((r.unwrap().start.downgrade_view() == s.anchor && r.unwrap().end.downgrade_view() == s.focus)
                    || (r.unwrap().start.downgrade_view() == s.focus && r.unwrap().end.downgrade_view() == s.anchor))
            },
    {
        match self.data().text_selection() {
            Some(selection) => {
                let anchor = InnerPosition::upgrade(self.tree_state(), selection.anchor, self.id().tree_index).unwrap();
                let focus = InnerPosition::upgrade(self.tree_state(), selection.focus, self.id().tree_index).unwrap();
                Some(Range::new(*self, anchor, focus))
            },
            None => None,
        }
    }
}

} // verus!
