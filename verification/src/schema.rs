//! Accessibility nodes and trees as UI toolkits describe them: a node is
//! a role, a set of supported actions, a word of boolean flags, and a table
//! of optional properties, each of which is stored only when it is set.

use vstd::prelude::*;

use crate::roles::{
    action_mask, bit_set, flag_mask, lemma_action_masks_distinct, lemma_clear_bit, lemma_set_bit,
    lemma_zero_word, Action, AriaCurrent, AutoComplete, Checked, DefaultActionVerb, Flag, HasPopup,
    Invalid, ListStyle, Live, Orientation, Role, SortDirection, TextAlign, TextDecoration,
    TextDirection, VerticalOffset,
};

verus! {

/// The stable identity of a node, unique within the node's tree.
#[derive(Clone, Copy, Debug, PartialEq, Eq, Structural, PartialOrd, Ord, Hash)]
pub struct NodeId(pub u64);

/// The identity of a tree: the root tree, or a subtree grafted into it.
#[derive(Clone, Copy, Debug, PartialEq, Eq, Structural, PartialOrd, Ord, Hash)]
pub struct TreeId(pub u128);

impl TreeId {
    /// The identifier of the root tree (the nil identifier).
    pub fn root() -> (r: TreeId)
        ensures
            r == root_tree_id(),
    {
        TreeId(0)
    }
}

/// The identifier of the root tree.
pub open spec fn root_tree_id() -> TreeId {
    TreeId(0)
}

/// Defines a custom action for a UI element.
#[derive(Clone, Debug)]
pub struct CustomAction {
    pub id: i32,
    pub description: String,
}

/// The abstract value of a custom action: its id and its description.
pub type CustomActionView = (i32, Seq<char>);

#[verifier::opaque]
pub open spec fn custom_actions_view(s: Seq<CustomAction>) -> Seq<CustomActionView> {
    s.map_values(|c: CustomAction| (c.id, c.description@))
}

/// A position within the text of a node whose role is inline text.
#[derive(Clone, Copy, Debug, PartialEq, Eq, Structural)]
pub struct TextPosition {
    /// The node's role must be [`Role::InlineTextBox`].
    pub node: NodeId,
    /// The index of an item in the node's character lengths, or the length
    /// of that slice if the position is at the end of the line.
    pub character_index: usize,
}

/// A text selection: an anchor that stays put and a focus that moves.
#[derive(Clone, Copy, Debug, PartialEq, Eq, Structural)]
pub struct TextSelection {
    pub anchor: TextPosition,
    pub focus: TextPosition,
}

/// The number of node properties; also the index value that marks a
/// property as never set.
pub const PROPERTY_COUNT: u8 = 70;

pub const PROP_CHILDREN: u8 = 0;
pub const PROP_CONTROLS: u8 = 1;
pub const PROP_DETAILS: u8 = 2;
pub const PROP_DESCRIBED_BY: u8 = 3;
pub const PROP_FLOW_TO: u8 = 4;
pub const PROP_LABELLED_BY: u8 = 5;
pub const PROP_RADIO_GROUP: u8 = 6;
pub const PROP_ACTIVE_DESCENDANT: u8 = 7;
pub const PROP_ERROR_MESSAGE: u8 = 8;
pub const PROP_IN_PAGE_LINK_TARGET: u8 = 9;
pub const PROP_MEMBER_OF: u8 = 10;
pub const PROP_NEXT_ON_LINE: u8 = 11;
pub const PROP_PREVIOUS_ON_LINE: u8 = 12;
pub const PROP_POPUP_FOR: u8 = 13;
pub const PROP_TABLE_HEADER: u8 = 14;
pub const PROP_TABLE_ROW_HEADER: u8 = 15;
pub const PROP_TABLE_COLUMN_HEADER: u8 = 16;
pub const PROP_NAME: u8 = 17;
pub const PROP_DESCRIPTION: u8 = 18;
pub const PROP_VALUE: u8 = 19;
pub const PROP_ACCESS_KEY: u8 = 20;
pub const PROP_CLASS_NAME: u8 = 21;
pub const PROP_FONT_FAMILY: u8 = 22;
pub const PROP_HTML_TAG: u8 = 23;
pub const PROP_INNER_HTML: u8 = 24;
pub const PROP_KEYBOARD_SHORTCUT: u8 = 25;
pub const PROP_LANGUAGE: u8 = 26;
pub const PROP_PLACEHOLDER: u8 = 27;
pub const PROP_ROLE_DESCRIPTION: u8 = 28;
pub const PROP_STATE_DESCRIPTION: u8 = 29;
pub const PROP_TOOLTIP: u8 = 30;
pub const PROP_URL: u8 = 31;
pub const PROP_AUTHOR_ID: u8 = 32;
pub const PROP_TABLE_ROW_COUNT: u8 = 33;
pub const PROP_TABLE_COLUMN_COUNT: u8 = 34;
pub const PROP_TABLE_ROW_INDEX: u8 = 35;
pub const PROP_TABLE_COLUMN_INDEX: u8 = 36;
pub const PROP_TABLE_CELL_COLUMN_INDEX: u8 = 37;
pub const PROP_TABLE_CELL_COLUMN_SPAN: u8 = 38;
pub const PROP_TABLE_CELL_ROW_INDEX: u8 = 39;
pub const PROP_TABLE_CELL_ROW_SPAN: u8 = 40;
pub const PROP_HIERARCHICAL_LEVEL: u8 = 41;
pub const PROP_SIZE_OF_SET: u8 = 42;
pub const PROP_POSITION_IN_SET: u8 = 43;
pub const PROP_COLOR_VALUE: u8 = 44;
pub const PROP_BACKGROUND_COLOR: u8 = 45;
pub const PROP_FOREGROUND_COLOR: u8 = 46;
pub const PROP_OVERLINE: u8 = 47;
pub const PROP_STRIKETHROUGH: u8 = 48;
pub const PROP_UNDERLINE: u8 = 49;
pub const PROP_CHARACTER_LENGTHS: u8 = 50;
pub const PROP_WORD_LENGTHS: u8 = 51;
pub const PROP_EXPANDED: u8 = 52;
pub const PROP_SELECTED: u8 = 53;
pub const PROP_INVALID: u8 = 54;
pub const PROP_CHECKED: u8 = 55;
pub const PROP_LIVE: u8 = 56;
pub const PROP_DEFAULT_ACTION_VERB: u8 = 57;
pub const PROP_TEXT_DIRECTION: u8 = 58;
pub const PROP_ORIENTATION: u8 = 59;
pub const PROP_SORT_DIRECTION: u8 = 60;
pub const PROP_ARIA_CURRENT: u8 = 61;
pub const PROP_AUTO_COMPLETE: u8 = 62;
pub const PROP_HAS_POPUP: u8 = 63;
pub const PROP_LIST_STYLE: u8 = 64;
pub const PROP_TEXT_ALIGN: u8 = 65;
pub const PROP_VERTICAL_OFFSET: u8 = 66;
pub const PROP_TEXT_SELECTION: u8 = 67;
pub const PROP_CUSTOM_ACTIONS: u8 = 68;
pub const PROP_TREE_ID: u8 = 69;

/// The stored value of one node property.
#[derive(Debug)]
pub enum PropertyValue {
    Empty,
    NodeIdVec(Vec<NodeId>),
    NodeId(NodeId),
    String(String),
    Usize(usize),
    Color(u32),
    TextDecoration(TextDecoration),
    LengthSlice(Vec<u8>),
    Bool(bool),
    Invalid(Invalid),
    Checked(Checked),
    Live(Live),
    DefaultActionVerb(DefaultActionVerb),
    TextDirection(TextDirection),
    Orientation(Orientation),
    SortDirection(SortDirection),
    AriaCurrent(AriaCurrent),
    AutoComplete(AutoComplete),
    HasPopup(HasPopup),
    ListStyle(ListStyle),
    TextAlign(TextAlign),
    VerticalOffset(VerticalOffset),
    TextSelection(TextSelection),
    CustomActionVec(Vec<CustomAction>),
    TreeId(TreeId),
}

/// The abstract value of one node property.
pub enum PropertyView {
    Empty,
    NodeIdVec(Seq<NodeId>),
    NodeId(NodeId),
    String(Seq<char>),
    Usize(usize),
    Color(u32),
    TextDecoration(TextDecoration),
    LengthSlice(Seq<u8>),
    Bool(bool),
    Invalid(Invalid),
    Checked(Checked),
    Live(Live),
    DefaultActionVerb(DefaultActionVerb),
    TextDirection(TextDirection),
    Orientation(Orientation),
    SortDirection(SortDirection),
    AriaCurrent(AriaCurrent),
    AutoComplete(AutoComplete),
    HasPopup(HasPopup),
    ListStyle(ListStyle),
    TextAlign(TextAlign),
    VerticalOffset(VerticalOffset),
    TextSelection(TextSelection),
    CustomActionVec(Seq<CustomActionView>),
    TreeId(TreeId),
}

impl PropertyValue {
    pub open spec fn view(&self) -> PropertyView {
        match self {
            PropertyValue::Empty => PropertyView::Empty,
            PropertyValue::NodeIdVec(v) => PropertyView::NodeIdVec(v@),
            PropertyValue::NodeId(v) => PropertyView::NodeId(*v),
            PropertyValue::String(v) => PropertyView::String(v@),
            PropertyValue::Usize(v) => PropertyView::Usize(*v),
            PropertyValue::Color(v) => PropertyView::Color(*v),
            PropertyValue::TextDecoration(v) => PropertyView::TextDecoration(*v),
            PropertyValue::LengthSlice(v) => PropertyView::LengthSlice(v@),
            PropertyValue::Bool(v) => PropertyView::Bool(*v),
            PropertyValue::Invalid(v) => PropertyView::Invalid(*v),
            PropertyValue::Checked(v) => PropertyView::Checked(*v),
            PropertyValue::Live(v) => PropertyView::Live(*v),
            PropertyValue::DefaultActionVerb(v) => PropertyView::DefaultActionVerb(*v),
            PropertyValue::TextDirection(v) => PropertyView::TextDirection(*v),
            PropertyValue::Orientation(v) => PropertyView::Orientation(*v),
            PropertyValue::SortDirection(v) => PropertyView::SortDirection(*v),
            PropertyValue::AriaCurrent(v) => PropertyView::AriaCurrent(*v),
            PropertyValue::AutoComplete(v) => PropertyView::AutoComplete(*v),
            PropertyValue::HasPopup(v) => PropertyView::HasPopup(*v),
            PropertyValue::ListStyle(v) => PropertyView::ListStyle(*v),
            PropertyValue::TextAlign(v) => PropertyView::TextAlign(*v),
            PropertyValue::VerticalOffset(v) => PropertyView::VerticalOffset(*v),
            PropertyValue::TextSelection(v) => PropertyView::TextSelection(*v),
            PropertyValue::CustomActionVec(v) => PropertyView::CustomActionVec(custom_actions_view(v@)),
            PropertyValue::TreeId(v) => PropertyView::TreeId(*v),
        }
    }
}

/// Whether `v` is a value that property `id` can hold.
pub open spec fn value_fits(id: u8, v: PropertyView) -> bool {
    match v {
        PropertyView::Empty => id < PROPERTY_COUNT,
        PropertyView::NodeIdVec(_) => 0 <= id < 7,
        PropertyView::NodeId(_) => 7 <= id < 17,
        PropertyView::String(_) => 17 <= id < 33,
        PropertyView::Usize(_) => 33 <= id < 44,
        PropertyView::Color(_) => 44 <= id < 47,
        PropertyView::TextDecoration(_) => 47 <= id < 50,
        PropertyView::LengthSlice(_) => 50 <= id < 52,
        PropertyView::Bool(_) => 52 <= id < 54,
        PropertyView::Invalid(_) => 54 <= id < 55,
        PropertyView::Checked(_) => 55 <= id < 56,
        PropertyView::Live(_) => 56 <= id < 57,
        PropertyView::DefaultActionVerb(_) => 57 <= id < 58,
        PropertyView::TextDirection(_) => 58 <= id < 59,
        PropertyView::Orientation(_) => 59 <= id < 60,
        PropertyView::SortDirection(_) => 60 <= id < 61,
        PropertyView::AriaCurrent(_) => 61 <= id < 62,
        PropertyView::AutoComplete(_) => 62 <= id < 63,
        PropertyView::HasPopup(_) => 63 <= id < 64,
        PropertyView::ListStyle(_) => 64 <= id < 65,
        PropertyView::TextAlign(_) => 65 <= id < 66,
        PropertyView::VerticalOffset(_) => 66 <= id < 67,
        PropertyView::TextSelection(_) => 67 <= id < 68,
        PropertyView::CustomActionVec(_) => 68 <= id < 69,
        PropertyView::TreeId(_) => 69 <= id < 70,
    }
}
/// The NodeIdVec held by a property value, empty when none is held.
pub open spec fn node_id_vec_value(p: PropertyView) -> Seq<NodeId> {
    match p {
        PropertyView::NodeIdVec(s) => s,
        _ => Seq::empty(),
    }
}

/// The NodeId held by a property value, if any.
pub open spec fn node_id_value(p: PropertyView) -> Option<NodeId> {
    match p {
        PropertyView::NodeId(v) => Some(v),
        _ => None,
    }
}

/// The String held by a property value, if any.
pub open spec fn string_value(p: PropertyView) -> Option<Seq<char>> {
    match p {
        PropertyView::String(v) => Some(v),
        _ => None,
    }
}

/// The Usize held by a property value, if any.
pub open spec fn usize_value(p: PropertyView) -> Option<usize> {
    match p {
        PropertyView::Usize(v) => Some(v),
        _ => None,
    }
}

/// The Color held by a property value, if any.
pub open spec fn color_value(p: PropertyView) -> Option<u32> {
    match p {
        PropertyView::Color(v) => Some(v),
        _ => None,
    }
}

/// The TextDecoration held by a property value, if any.
pub open spec fn text_decoration_value(p: PropertyView) -> Option<TextDecoration> {
    match p {
        PropertyView::TextDecoration(v) => Some(v),
        _ => None,
    }
}

/// The LengthSlice held by a property value, empty when none is held.
pub open spec fn length_slice_value(p: PropertyView) -> Seq<u8> {
    match p {
        PropertyView::LengthSlice(s) => s,
        _ => Seq::empty(),
    }
}

/// The Bool held by a property value, if any.
pub open spec fn bool_value(p: PropertyView) -> Option<bool> {
    match p {
        PropertyView::Bool(v) => Some(v),
        _ => None,
    }
}

/// The Invalid held by a property value, if any.
pub open spec fn invalid_value(p: PropertyView) -> Option<Invalid> {
    match p {
        PropertyView::Invalid(v) => Some(v),
        _ => None,
    }
}

/// The Checked held by a property value, if any.
pub open spec fn checked_value(p: PropertyView) -> Option<Checked> {
    match p {
        PropertyView::Checked(v) => Some(v),
        _ => None,
    }
}

/// The Live held by a property value, if any.
pub open spec fn live_value(p: PropertyView) -> Option<Live> {
    match p {
        PropertyView::Live(v) => Some(v),
        _ => None,
    }
}

/// The DefaultActionVerb held by a property value, if any.
pub open spec fn default_action_verb_value(p: PropertyView) -> Option<DefaultActionVerb> {
    match p {
        PropertyView::DefaultActionVerb(v) => Some(v),
        _ => None,
    }
}

/// The TextDirection held by a property value, if any.
pub open spec fn text_direction_value(p: PropertyView) -> Option<TextDirection> {
    match p {
        PropertyView::TextDirection(v) => Some(v),
        _ => None,
    }
}

/// The Orientation held by a property value, if any.
pub open spec fn orientation_value(p: PropertyView) -> Option<Orientation> {
    match p {
        PropertyView::Orientation(v) => Some(v),
        _ => None,
    }
}

/// The SortDirection held by a property value, if any.
pub open spec fn sort_direction_value(p: PropertyView) -> Option<SortDirection> {
    match p {
        PropertyView::SortDirection(v) => Some(v),
        _ => None,
    }
}

/// The AriaCurrent held by a property value, if any.
pub open spec fn aria_current_value(p: PropertyView) -> Option<AriaCurrent> {
    match p {
        PropertyView::AriaCurrent(v) => Some(v),
        _ => None,
    }
}

/// The AutoComplete held by a property value, if any.
pub open spec fn auto_complete_value(p: PropertyView) -> Option<AutoComplete> {
    match p {
        PropertyView::AutoComplete(v) => Some(v),
        _ => None,
    }
}

/// The HasPopup held by a property value, if any.
pub open spec fn has_popup_value(p: PropertyView) -> Option<HasPopup> {
    match p {
        PropertyView::HasPopup(v) => Some(v),
        _ => None,
    }
}

/// The ListStyle held by a property value, if any.
pub open spec fn list_style_value(p: PropertyView) -> Option<ListStyle> {
    match p {
        PropertyView::ListStyle(v) => Some(v),
        _ => None,
    }
}

/// The TextAlign held by a property value, if any.
pub open spec fn text_align_value(p: PropertyView) -> Option<TextAlign> {
    match p {
        PropertyView::TextAlign(v) => Some(v),
        _ => None,
    }
}

/// The VerticalOffset held by a property value, if any.
pub open spec fn vertical_offset_value(p: PropertyView) -> Option<VerticalOffset> {
    match p {
        PropertyView::VerticalOffset(v) => Some(v),
        _ => None,
    }
}

/// The TextSelection held by a property value, if any.
pub open spec fn text_selection_value(p: PropertyView) -> Option<TextSelection> {
    match p {
        PropertyView::TextSelection(v) => Some(v),
        _ => None,
    }
}

/// The CustomActionVec held by a property value, empty when none is held.
pub open spec fn custom_action_vec_value(p: PropertyView) -> Seq<CustomActionView> {
    match p {
        PropertyView::CustomActionVec(s) => s,
        _ => Seq::empty(),
    }
}

/// The TreeId held by a property value, if any.
pub open spec fn tree_id_value(p: PropertyView) -> Option<TreeId> {
    match p {
        PropertyView::TreeId(v) => Some(v),
        _ => None,
    }
}

/// The abstract values of a property slice.
pub open spec fn props_view(props: Seq<PropertyValue>) -> Seq<PropertyView> {
    props.map_values(|p: PropertyValue| p.view())
}

/// Whether `s` and the optional string `o` hold the same characters.
pub open spec fn opt_str_view(o: Option<&str>) -> Option<Seq<char>> {
    match o {
        Some(s) => Some(s@),
        None => None,
    }
}

/// How many of the first `n` properties are set in `indices`.
pub open spec fn count_set(indices: Seq<u8>, n: int) -> nat
    decreases n,
{
    if n <= 0 {
        0
    } else {
        count_set(indices, n - 1) + if indices[n - 1] != PROPERTY_COUNT { 1nat } else { 0nat }
    }
}

/// The well-formedness of a property table: `indices` maps each property to
/// its slot in `props` (or to `PROPERTY_COUNT` when it was never set), no two
/// properties share a slot, every slot belongs to some property, and each
/// slot holds a value of its property's type or nothing.
pub open spec fn table_wf(indices: Seq<u8>, props: Seq<PropertyView>) -> bool {
    &&& indices.len() == PROPERTY_COUNT as int
    &&& props.len() == count_set(indices, PROPERTY_COUNT as int)
    &&& forall|i: int| 0 <= i < PROPERTY_COUNT ==> (#[trigger] indices[i] == PROPERTY_COUNT || indices[i] < props.len())
    &&& forall|i: int, j: int|
        0 <= i < PROPERTY_COUNT && 0 <= j < PROPERTY_COUNT && i != j && #[trigger] indices[i] != PROPERTY_COUNT
            ==> indices[i] != #[trigger] indices[j]
    &&& forall|i: int| 0 <= i < PROPERTY_COUNT && #[trigger] indices[i] != PROPERTY_COUNT
        ==> value_fits(i as u8, props[indices[i] as int])
}

/// The value of property `id` in a table: nothing when it was never set.
pub open spec fn prop_at(indices: Seq<u8>, props: Seq<PropertyView>, id: u8) -> PropertyView {
    if indices[id as int] == PROPERTY_COUNT {
        PropertyView::Empty
    } else {
        props[indices[id as int] as int]
    }
}

proof fn lemma_count_le(indices: Seq<u8>, n: int)
    requires
        0 <= n <= indices.len(),
    ensures
        count_set(indices, n) <= n,
    decreases n,
{
    if n > 0 {
        lemma_count_le(indices, n - 1);
    }
}

proof fn lemma_count_update(indices: Seq<u8>, n: int, id: int, v: u8)
    requires
        0 <= n <= indices.len(),
        0 <= id < indices.len(),
        indices[id] == PROPERTY_COUNT,
        v != PROPERTY_COUNT,
    ensures
        count_set(indices.update(id, v), n) == count_set(indices, n) + if id < n { 1nat } else { 0nat },
    decreases n,
{
    if n > 0 {
        lemma_count_update(indices, n - 1, id, v);
    }
}

/// The empty table: no property set.
proof fn lemma_count_unset(indices: Seq<u8>, n: int)
    requires
        0 <= n <= indices.len(),
        forall|i: int| 0 <= i < indices.len() ==> indices[i] == PROPERTY_COUNT,
    ensures
        count_set(indices, n) == 0,
    decreases n,
{
    if n > 0 {
        lemma_count_unset(indices, n - 1);
    }
}

/// The parts of a node that nodes with the same role, actions and set of
/// defined properties share.
#[derive(Debug)]
pub struct NodeClass {
    role: Role,
    actions: u32,
    indices: Vec<u8>,
}

/// The abstract value of a node: its role, its action and flag words, and
/// its property table (which slot each property occupies, and the slots).
pub struct NodeView {
    pub role: Role,
    pub actions: u32,
    pub flags: u32,
    pub indices: Seq<u8>,
    pub props: Seq<PropertyView>,
}

impl NodeView {
    /// The property table is well formed.
    pub open spec fn wf(self) -> bool {
        table_wf(self.indices, self.props)
    }

    /// The value of property `id`.
    pub open spec fn prop(self, id: u8) -> PropertyView {
        prop_at(self.indices, self.props, id)
    }

    /// Whether the node supports `a`.
    pub open spec fn supports(self, a: Action) -> bool {
        bit_set(self.actions, a as u32)
    }

    /// Whether flag `f` is set.
    pub open spec fn has_flag(self, f: Flag) -> bool {
        bit_set(self.flags, f as u32)
    }

    /// The children of the node.
    pub open spec fn children(self) -> Seq<NodeId> {
        node_id_vec_value(self.prop(PROP_CHILDREN))
    }

    /// The subtree that the node grafts in, if any.
    pub open spec fn tree_id(self) -> Option<TreeId> {
        tree_id_value(self.prop(PROP_TREE_ID))
    }

    /// The properties of `self` and `other` agree everywhere but at `id`.
    pub open spec fn same_props_except(self, other: NodeView, id: u8) -> bool {
        forall|j: u8| j < PROPERTY_COUNT && j != id ==> #[trigger] self.prop(j) == other.prop(j)
    }
}

/// A single accessible object. A complete UI is represented as a tree of
/// these. Nodes are made with a [`NodeBuilder`] and do not change after.
#[derive(Debug)]
pub struct Node {
    class: NodeClass,
    flags: u32,
    props: Vec<PropertyValue>,
}

/// Builds a [`Node`].
#[derive(Debug)]
pub struct NodeBuilder {
    class: NodeClass,
    flags: u32,
    props: Vec<PropertyValue>,
}

impl View for Node {
    type V = NodeView;

    closed spec fn view(&self) -> NodeView {
        NodeView {
            role: self.class.role,
            actions: self.class.actions,
            flags: self.flags,
            indices: self.class.indices@,
            props: props_view(self.props@),
        }
    }
}

impl View for NodeBuilder {
    type V = NodeView;

    closed spec fn view(&self) -> NodeView {
        NodeView {
            role: self.class.role,
            actions: self.class.actions,
            flags: self.flags,
            indices: self.class.indices@,
            props: props_view(self.props@),
        }
    }
}

impl Node {
    /// Every node's property table is well formed.
    #[verifier::type_invariant]
    pub open spec fn inv(&self) -> bool {
        self@.wf()
    }
}

fn get_node_id_vec_property<'a>(class: &NodeClass, props: &'a Vec<PropertyValue>, id: u8) -> (r: &'a [NodeId])
    requires
        table_wf(class.indices@, props_view(props@)),
        0 <= id < 7,
    ensures
        r@ == node_id_vec_value(prop_at(class.indices@, props_view(props@), id)),
{
    let index = class.indices[id as usize];
    if index == PROPERTY_COUNT {
        &[]
    } else {
        match &props[index as usize] {
            PropertyValue::NodeIdVec(v) => v.as_slice(),
            _ => &[],
        }
    }
}

fn get_node_id_property<'a>(class: &NodeClass, props: &'a Vec<PropertyValue>, id: u8) -> (r: Option<NodeId>)
    requires
        table_wf(class.indices@, props_view(props@)),
        7 <= id < 17,
    ensures
        r == node_id_value(prop_at(class.indices@, props_view(props@), id)),
{
    let index = class.indices[id as usize];
    if index == PROPERTY_COUNT {
        None
    } else {
        match &props[index as usize] {
            PropertyValue::NodeId(v) => Some(*v),
            _ => None,
        }
    }
}

fn get_string_property<'a>(class: &NodeClass, props: &'a Vec<PropertyValue>, id: u8) -> (r: Option<&'a str>)
    requires
        table_wf(class.indices@, props_view(props@)),
        17 <= id < 33,
    ensures
        opt_str_view(r) == string_value(prop_at(class.indices@, props_view(props@), id)),
{
    let index = class.indices[id as usize];
    if index == PROPERTY_COUNT {
        None
    } else {
        match &props[index as usize] {
            PropertyValue::String(v) => Some(v.as_str()),
            _ => None,
        }
    }
}

fn get_usize_property<'a>(class: &NodeClass, props: &'a Vec<PropertyValue>, id: u8) -> (r: Option<usize>)
    requires
        table_wf(class.indices@, props_view(props@)),
        33 <= id < 44,
    ensures
        r == usize_value(prop_at(class.indices@, props_view(props@), id)),
{
    let index = class.indices[id as usize];
    if index == PROPERTY_COUNT {
        None
    } else {
        match &props[index as usize] {
            PropertyValue::Usize(v) => Some(*v),
            _ => None,
        }
    }
}

fn get_color_property<'a>(class: &NodeClass, props: &'a Vec<PropertyValue>, id: u8) -> (r: Option<u32>)
    requires
        table_wf(class.indices@, props_view(props@)),
        44 <= id < 47,
    ensures
        r == color_value(prop_at(class.indices@, props_view(props@), id)),
{
    let index = class.indices[id as usize];
    if index == PROPERTY_COUNT {
        None
    } else {
        match &props[index as usize] {
            PropertyValue::Color(v) => Some(*v),
            _ => None,
        }
    }
}

fn get_text_decoration_property<'a>(class: &NodeClass, props: &'a Vec<PropertyValue>, id: u8) -> (r: Option<TextDecoration>)
    requires
        table_wf(class.indices@, props_view(props@)),
        47 <= id < 50,
    ensures
        r == text_decoration_value(prop_at(class.indices@, props_view(props@), id)),
{
    let index = class.indices[id as usize];
    if index == PROPERTY_COUNT {
        None
    } else {
        match &props[index as usize] {
            PropertyValue::TextDecoration(v) => Some(*v),
            _ => None,
        }
    }
}

fn get_length_slice_property<'a>(class: &NodeClass, props: &'a Vec<PropertyValue>, id: u8) -> (r: &'a [u8])
    requires
        table_wf(class.indices@, props_view(props@)),
        50 <= id < 52,
    ensures
        r@ == length_slice_value(prop_at(class.indices@, props_view(props@), id)),
{
    let index = class.indices[id as usize];
    if index == PROPERTY_COUNT {
        &[]
    } else {
        match &props[index as usize] {
            PropertyValue::LengthSlice(v) => v.as_slice(),
            _ => &[],
        }
    }
}

fn get_bool_property<'a>(class: &NodeClass, props: &'a Vec<PropertyValue>, id: u8) -> (r: Option<bool>)
    requires
        table_wf(class.indices@, props_view(props@)),
        52 <= id < 54,
    ensures
        r == bool_value(prop_at(class.indices@, props_view(props@), id)),
{
    let index = class.indices[id as usize];
    if index == PROPERTY_COUNT {
        None
    } else {
        match &props[index as usize] {
            PropertyValue::Bool(v) => Some(*v),
            _ => None,
        }
    }
}

fn get_invalid_property<'a>(class: &NodeClass, props: &'a Vec<PropertyValue>, id: u8) -> (r: Option<Invalid>)
    requires
        table_wf(class.indices@, props_view(props@)),
        54 <= id < 55,
    ensures
        r == invalid_value(prop_at(class.indices@, props_view(props@), id)),
{
    let index = class.indices[id as usize];
    if index == PROPERTY_COUNT {
        None
    } else {
        match &props[index as usize] {
            PropertyValue::Invalid(v) => Some(*v),
            _ => None,
        }
    }
}

fn get_checked_property<'a>(class: &NodeClass, props: &'a Vec<PropertyValue>, id: u8) -> (r: Option<Checked>)
    requires
        table_wf(class.indices@, props_view(props@)),
        55 <= id < 56,
    ensures
        r == checked_value(prop_at(class.indices@, props_view(props@), id)),
{
    let index = class.indices[id as usize];
    if index == PROPERTY_COUNT {
        None
    } else {
        match &props[index as usize] {
            PropertyValue::Checked(v) => Some(*v),
            _ => None,
        }
    }
}

fn get_live_property<'a>(class: &NodeClass, props: &'a Vec<PropertyValue>, id: u8) -> (r: Option<Live>)
    requires
        table_wf(class.indices@, props_view(props@)),
        56 <= id < 57,
    ensures
        r == live_value(prop_at(class.indices@, props_view(props@), id)),
{
    let index = class.indices[id as usize];
    if index == PROPERTY_COUNT {
        None
    } else {
        match &props[index as usize] {
            PropertyValue::Live(v) => Some(*v),
            _ => None,
        }
    }
}

fn get_default_action_verb_property<'a>(class: &NodeClass, props: &'a Vec<PropertyValue>, id: u8) -> (r: Option<DefaultActionVerb>)
    requires
        table_wf(class.indices@, props_view(props@)),
        57 <= id < 58,
    ensures
        r == default_action_verb_value(prop_at(class.indices@, props_view(props@), id)),
{
    let index = class.indices[id as usize];
    if index == PROPERTY_COUNT {
        None
    } else {
        match &props[index as usize] {
            PropertyValue::DefaultActionVerb(v) => Some(*v),
            _ => None,
        }
    }
}

fn get_text_direction_property<'a>(class: &NodeClass, props: &'a Vec<PropertyValue>, id: u8) -> (r: Option<TextDirection>)
    requires
        table_wf(class.indices@, props_view(props@)),
        58 <= id < 59,
    ensures
        r == text_direction_value(prop_at(class.indices@, props_view(props@), id)),
{
    let index = class.indices[id as usize];
    if index == PROPERTY_COUNT {
        None
    } else {
        match &props[index as usize] {
            PropertyValue::TextDirection(v) => Some(*v),
            _ => None,
        }
    }
}

fn get_orientation_property<'a>(class: &NodeClass, props: &'a Vec<PropertyValue>, id: u8) -> (r: Option<Orientation>)
    requires
        table_wf(class.indices@, props_view(props@)),
        59 <= id < 60,
    ensures
        r == orientation_value(prop_at(class.indices@, props_view(props@), id)),
{
    let index = class.indices[id as usize];
    if index == PROPERTY_COUNT {
        None
    } else {
        match &props[index as usize] {
            PropertyValue::Orientation(v) => Some(*v),
            _ => None,
        }
    }
}

fn get_sort_direction_property<'a>(class: &NodeClass, props: &'a Vec<PropertyValue>, id: u8) -> (r: Option<SortDirection>)
    requires
        table_wf(class.indices@, props_view(props@)),
        60 <= id < 61,
    ensures
        r == sort_direction_value(prop_at(class.indices@, props_view(props@), id)),
{
    let index = class.indices[id as usize];
    if index == PROPERTY_COUNT {
        None
    } else {
        match &props[index as usize] {
            PropertyValue::SortDirection(v) => Some(*v),
            _ => None,
        }
    }
}

fn get_aria_current_property<'a>(class: &NodeClass, props: &'a Vec<PropertyValue>, id: u8) -> (r: Option<AriaCurrent>)
    requires
        table_wf(class.indices@, props_view(props@)),
        61 <= id < 62,
    ensures
        r == aria_current_value(prop_at(class.indices@, props_view(props@), id)),
{
    let index = class.indices[id as usize];
    if index == PROPERTY_COUNT {
        None
    } else {
        match &props[index as usize] {
            PropertyValue::AriaCurrent(v) => Some(*v),
            _ => None,
        }
    }
}

fn get_auto_complete_property<'a>(class: &NodeClass, props: &'a Vec<PropertyValue>, id: u8) -> (r: Option<AutoComplete>)
    requires
        table_wf(class.indices@, props_view(props@)),
        62 <= id < 63,
    ensures
        r == auto_complete_value(prop_at(class.indices@, props_view(props@), id)),
{
    let index = class.indices[id as usize];
    if index == PROPERTY_COUNT {
        None
    } else {
        match &props[index as usize] {
            PropertyValue::AutoComplete(v) => Some(*v),
            _ => None,
        }
    }
}

fn get_has_popup_property<'a>(class: &NodeClass, props: &'a Vec<PropertyValue>, id: u8) -> (r: Option<HasPopup>)
    requires
        table_wf(class.indices@, props_view(props@)),
        63 <= id < 64,
    ensures
        r == has_popup_value(prop_at(class.indices@, props_view(props@), id)),
{
    let index = class.indices[id as usize];
    if index == PROPERTY_COUNT {
        None
    } else {
        match &props[index as usize] {
            PropertyValue::HasPopup(v) => Some(*v),
            _ => None,
        }
    }
}

fn get_list_style_property<'a>(class: &NodeClass, props: &'a Vec<PropertyValue>, id: u8) -> (r: Option<ListStyle>)
    requires
        table_wf(class.indices@, props_view(props@)),
        64 <= id < 65,
    ensures
        r == list_style_value(prop_at(class.indices@, props_view(props@), id)),
{
    let index = class.indices[id as usize];
    if index == PROPERTY_COUNT {
        None
    } else {
        match &props[index as usize] {
            PropertyValue::ListStyle(v) => Some(*v),
            _ => None,
        }
    }
}

fn get_text_align_property<'a>(class: &NodeClass, props: &'a Vec<PropertyValue>, id: u8) -> (r: Option<TextAlign>)
    requires
        table_wf(class.indices@, props_view(props@)),
        65 <= id < 66,
    ensures
        r == text_align_value(prop_at(class.indices@, props_view(props@), id)),
{
    let index = class.indices[id as usize];
    if index == PROPERTY_COUNT {
        None
    } else {
        match &props[index as usize] {
            PropertyValue::TextAlign(v) => Some(*v),
            _ => None,
        }
    }
}

fn get_vertical_offset_property<'a>(class: &NodeClass, props: &'a Vec<PropertyValue>, id: u8) -> (r: Option<VerticalOffset>)
    requires
        table_wf(class.indices@, props_view(props@)),
        66 <= id < 67,
    ensures
        r == vertical_offset_value(prop_at(class.indices@, props_view(props@), id)),
{
    let index = class.indices[id as usize];
    if index == PROPERTY_COUNT {
        None
    } else {
        match &props[index as usize] {
            PropertyValue::VerticalOffset(v) => Some(*v),
            _ => None,
        }
    }
}

fn get_text_selection_property<'a>(class: &NodeClass, props: &'a Vec<PropertyValue>, id: u8) -> (r: Option<TextSelection>)
    requires
        table_wf(class.indices@, props_view(props@)),
        67 <= id < 68,
    ensures
        r == text_selection_value(prop_at(class.indices@, props_view(props@), id)),
{
    let index = class.indices[id as usize];
    if index == PROPERTY_COUNT {
        None
    } else {
        match &props[index as usize] {
            PropertyValue::TextSelection(v) => Some(*v),
            _ => None,
        }
    }
}

fn get_custom_action_vec_property<'a>(class: &NodeClass, props: &'a Vec<PropertyValue>, id: u8) -> (r: &'a [CustomAction])
    requires
        table_wf(class.indices@, props_view(props@)),
        68 <= id < 69,
    ensures
        custom_actions_view(r@) == custom_action_vec_value(prop_at(class.indices@, props_view(props@), id)),
{
    proof { reveal(custom_actions_view); }
    let index = class.indices[id as usize];
    if index == PROPERTY_COUNT {
        &[]
    } else {
        match &props[index as usize] {
            PropertyValue::CustomActionVec(v) => v.as_slice(),
            _ => &[],
        }
    }
}

fn get_tree_id_property<'a>(class: &NodeClass, props: &'a Vec<PropertyValue>, id: u8) -> (r: Option<TreeId>)
    requires
        table_wf(class.indices@, props_view(props@)),
        69 <= id < 70,
    ensures
        r == tree_id_value(prop_at(class.indices@, props_view(props@), id)),
{
    let index = class.indices[id as usize];
    if index == PROPERTY_COUNT {
        None
    } else {
        match &props[index as usize] {
            PropertyValue::TreeId(v) => Some(*v),
            _ => None,
        }
    }
}

fn copy_node_ids(s: &[NodeId]) -> (r: Vec<NodeId>)
    ensures
        r@ == s@,
{
    let mut r: Vec<NodeId> = Vec::new();
    let mut i: usize = 0;
    while i < s.len()
        invariant
            i <= s@.len(),
            r@ == s@.subrange(0, i as int),
        decreases s@.len() - i,
    {
        r.push(s[i]);
        i = i + 1;
        assert(r@ =~= s@.subrange(0, i as int));
    }
    assert(r@ =~= s@);
    r
}

fn copy_lengths(s: &[u8]) -> (r: Vec<u8>)
    ensures
        r@ == s@,
{
    let mut r: Vec<u8> = Vec::new();
    let mut i: usize = 0;
    while i < s.len()
        invariant
            i <= s@.len(),
            r@ == s@.subrange(0, i as int),
        decreases s@.len() - i,
    {
        r.push(s[i]);
        i = i + 1;
        assert(r@ =~= s@.subrange(0, i as int));
    }
    assert(r@ =~= s@);
    r
}

fn copy_custom_actions(s: &[CustomAction]) -> (r: Vec<CustomAction>)
    ensures
        custom_actions_view(r@) == custom_actions_view(s@),
{
    let mut r: Vec<CustomAction> = Vec::new();
    let mut i: usize = 0;
    while i < s.len()
        invariant
            i <= s@.len(),
            r@.len() == i,
            forall|j: int| 0 <= j < i ==> (#[trigger] r@[j]).id == s@[j].id && r@[j].description@ == s@[j].description@,
        decreases s@.len() - i,
    {
        let c = CustomAction { id: s[i].id, description: s[i].description.clone() };
        r.push(c);
        i = i + 1;
    }
    reveal(custom_actions_view);
    assert(custom_actions_view(r@) =~= custom_actions_view(s@));
    r
}

impl PropertyValue {
    /// A copy of the value.
    pub fn duplicate(&self) -> (r: PropertyValue)
        ensures
            r.view() == self.view(),
    {
        match self {
            PropertyValue::Empty => PropertyValue::Empty,
            PropertyValue::NodeIdVec(v) => PropertyValue::NodeIdVec(copy_node_ids(v.as_slice())),
            PropertyValue::String(s) => PropertyValue::String(s.clone()),
            PropertyValue::LengthSlice(v) => PropertyValue::LengthSlice(copy_lengths(v.as_slice())),
            PropertyValue::CustomActionVec(v) => PropertyValue::CustomActionVec(
                copy_custom_actions(v.as_slice()),
            ),
            PropertyValue::NodeId(v) => PropertyValue::NodeId(*v),
            PropertyValue::Usize(v) => PropertyValue::Usize(*v),
            PropertyValue::Color(v) => PropertyValue::Color(*v),
            PropertyValue::TextDecoration(v) => PropertyValue::TextDecoration(*v),
            PropertyValue::Bool(v) => PropertyValue::Bool(*v),
            PropertyValue::Invalid(v) => PropertyValue::Invalid(*v),
            PropertyValue::Checked(v) => PropertyValue::Checked(*v),
            PropertyValue::Live(v) => PropertyValue::Live(*v),
            PropertyValue::DefaultActionVerb(v) => PropertyValue::DefaultActionVerb(*v),
            PropertyValue::TextDirection(v) => PropertyValue::TextDirection(*v),
            PropertyValue::Orientation(v) => PropertyValue::Orientation(*v),
            PropertyValue::SortDirection(v) => PropertyValue::SortDirection(*v),
            PropertyValue::AriaCurrent(v) => PropertyValue::AriaCurrent(*v),
            PropertyValue::AutoComplete(v) => PropertyValue::AutoComplete(*v),
            PropertyValue::HasPopup(v) => PropertyValue::HasPopup(*v),
            PropertyValue::ListStyle(v) => PropertyValue::ListStyle(*v),
            PropertyValue::TextAlign(v) => PropertyValue::TextAlign(*v),
            PropertyValue::VerticalOffset(v) => PropertyValue::VerticalOffset(*v),
            PropertyValue::TextSelection(v) => PropertyValue::TextSelection(*v),
            PropertyValue::TreeId(v) => PropertyValue::TreeId(*v),
        }
    }
}

fn copy_props(s: &Vec<PropertyValue>) -> (r: Vec<PropertyValue>)
    ensures
        props_view(r@) == props_view(s@),
{
    let mut r: Vec<PropertyValue> = Vec::new();
    let mut i: usize = 0;
    while i < s.len()
        invariant
            i <= s@.len(),
            r@.len() == i,
            forall|j: int| 0 <= j < i ==> (#[trigger] r@[j]).view() == s@[j].view(),
        decreases s@.len() - i,
    {
        r.push(s[i].duplicate());
        i = i + 1;
    }
    assert(props_view(r@) =~= props_view(s@));
    r
}

impl NodeClass {
    fn duplicate(&self) -> (r: NodeClass)
        ensures
            r.role == self.role,
            r.actions == self.actions,
            r.indices@ == self.indices@,
    {
        NodeClass { role: self.role, actions: self.actions, indices: copy_lengths(self.indices.as_slice()) }
    }

    fn same_as(&self, other: &NodeClass) -> (r: bool)
        ensures
            r == (self.role == other.role && self.actions == other.actions
                && self.indices@ == other.indices@),
    {
        if self.role != other.role || self.actions != other.actions
            || self.indices.len() != other.indices.len() {
            return false;
        }
        let mut i: usize = 0;
        while i < self.indices.len()
            invariant
                i <= self.indices@.len(),
                self.indices@.len() == other.indices@.len(),
                forall|j: int| 0 <= j < i ==> self.indices@[j] == other.indices@[j],
            decreases self.indices@.len() - i,
        {
            if self.indices[i] != other.indices[i] {
                return false;
            }
            i = i + 1;
        }
        assert(self.indices@ =~= other.indices@);
        true
    }
}

/// Adding an action that a node already gets from an earlier add changes
/// nothing: adding it twice leaves the same action set as adding it once.
pub proof fn law_add_action_twice(v: NodeView, a: Action)
    ensures
        (v.actions | action_mask(a)) | action_mask(a) == v.actions | action_mask(a),
{
    let w = v.actions;
    let m = action_mask(a);
    assert((w | m) | m == w | m) by (bit_vector);
}

/// Removing an action right after adding it gives back the action set
/// from before, when the action was not supported then.
pub proof fn law_add_then_remove_action(v: NodeView, a: Action)
    requires
        v.actions & action_mask(a) == 0,
    ensures
        (v.actions | action_mask(a)) & !action_mask(a) == v.actions,
{
    let w = v.actions;
    let m = action_mask(a);
    assert((w | m) & !m == w) by (bit_vector)
        requires w & m == 0;
}

impl NodeBuilder {
    /// The property table of the builder is well formed.
    pub open spec fn wf(&self) -> bool {
        self@.wf()
    }

    /// A builder for a node with the given role, no actions, no flags and
    /// no properties.
    pub fn new(role: Role) -> (r: NodeBuilder)
        ensures
            r.wf(),
            r@.role == role,
            r@.actions == 0,
            r@.flags == 0,
            forall|id: u8| id < PROPERTY_COUNT ==> #[trigger] r@.prop(id) == PropertyView::Empty,
    {
        let mut indices: Vec<u8> = Vec::new();
        let mut i: u8 = 0;
        while i < PROPERTY_COUNT
            invariant
                i <= PROPERTY_COUNT,
                indices@.len() == i,
                forall|j: int| 0 <= j < i ==> indices@[j] == PROPERTY_COUNT,
            decreases PROPERTY_COUNT - i,
        {
            indices.push(PROPERTY_COUNT);
            i = i + 1;
        }
        let r = NodeBuilder {
            class: NodeClass { role, actions: 0, indices },
            flags: 0,
            props: Vec::new(),
        };
        proof {
            lemma_count_unset(indices@, PROPERTY_COUNT as int);
            assert(props_view(r.props@) =~= Seq::<PropertyView>::empty());
        }
        r
    }

    fn set_property(&mut self, id: u8, value: PropertyValue)
        requires
            old(self).wf(),
            id < PROPERTY_COUNT,
            value_fits(id, value.view()),
        ensures
            final(self).wf(),
            final(self)@.prop(id) == value.view(),
            final(self)@.same_props_except(old(self)@, id),
            final(self)@.role == old(self)@.role,
            final(self)@.actions == old(self)@.actions,
            final(self)@.flags == old(self)@.flags,
    {
        let index = self.class.indices[id as usize];
        let ghost old_indices = self.class.indices@;
        let ghost old_props = props_view(self.props@);
        let ghost vv = value.view();
        if index == PROPERTY_COUNT {
            let len = self.props.len();
            proof {
                lemma_count_update(old_indices, PROPERTY_COUNT as int, id as int, 0u8);
                lemma_count_le(old_indices.update(id as int, 0u8), PROPERTY_COUNT as int);
            }
            self.props.push(value);
            self.class.indices.set(id as usize, len as u8);
            proof {
                let ni = self.class.indices@;
                let np = props_view(self.props@);
                assert(np =~= old_props.push(vv));
                assert(ni =~= old_indices.update(id as int, len as u8));
                lemma_count_update(old_indices, PROPERTY_COUNT as int, id as int, len as u8);
                assert forall|j: u8| j < PROPERTY_COUNT && j != id implies
                    #[trigger] prop_at(ni, np, j) == prop_at(old_indices, old_props, j) by {
                    assert(ni[j as int] == old_indices[j as int]);
                }
                assert forall|i: int, j: int|
                    0 <= i < PROPERTY_COUNT && 0 <= j < PROPERTY_COUNT && i != j
                        && #[trigger] ni[i] != PROPERTY_COUNT implies ni[i] != #[trigger] ni[j] by {
                    if i == id as int {
                        assert(ni[j] == old_indices[j]);
                    } else if j == id as int {
                        assert(ni[i] == old_indices[i]);
                    }
                }
                assert forall|i: int| 0 <= i < PROPERTY_COUNT && #[trigger] ni[i] != PROPERTY_COUNT
                    implies value_fits(i as u8, np[ni[i] as int]) by {
                    if i != id as int {
                        assert(ni[i] == old_indices[i]);
                    }
                }
            }
        } else {
            self.props.set(index as usize, value);
            proof {
                let ni = self.class.indices@;
                let np = props_view(self.props@);
                assert(np =~= old_props.update(index as int, vv));
                assert forall|j: u8| j < PROPERTY_COUNT && j != id implies
                    #[trigger] prop_at(ni, np, j) == prop_at(old_indices, old_props, j) by {
                    if old_indices[j as int] != PROPERTY_COUNT {
                        assert(old_indices[j as int] != old_indices[id as int]);
                    }
                }
                assert forall|i: int| 0 <= i < PROPERTY_COUNT && #[trigger] ni[i] != PROPERTY_COUNT
                    implies value_fits(i as u8, np[ni[i] as int]) by {
                    if i != id as int {
                        assert(ni[i] != ni[id as int]);
                    }
                }
            }
        }
    }

    fn clear_property(&mut self, id: u8)
        requires
            old(self).wf(),
            id < PROPERTY_COUNT,
        ensures
            final(self).wf(),
            final(self)@.prop(id) == PropertyView::Empty,
            final(self)@.same_props_except(old(self)@, id),
            final(self)@.role == old(self)@.role,
            final(self)@.actions == old(self)@.actions,
            final(self)@.flags == old(self)@.flags,
    {
        let index = self.class.indices[id as usize];
        if index != PROPERTY_COUNT {
            self.set_property(id, PropertyValue::Empty);
        }
    }

    fn push_to_node_id_vec(&mut self, id: u8, item: NodeId)
        requires
            old(self).wf(),
            id < 7,
        ensures
            final(self).wf(),
            node_id_vec_value(final(self)@.prop(id)) == node_id_vec_value(old(self)@.prop(id)).push(item),
            final(self)@.same_props_except(old(self)@, id),
            final(self)@.role == old(self)@.role,
            final(self)@.actions == old(self)@.actions,
            final(self)@.flags == old(self)@.flags,
    {
        let current = get_node_id_vec_property(&self.class, &self.props, id);
        let mut items = copy_node_ids(current);
        items.push(item);
        self.set_property(id, PropertyValue::NodeIdVec(items));
    }

    fn push_to_custom_action_vec(&mut self, id: u8, item: CustomAction)
        requires
            old(self).wf(),
            id == PROP_CUSTOM_ACTIONS,
        ensures
            final(self).wf(),
            custom_action_vec_value(final(self)@.prop(id))
                == custom_action_vec_value(old(self)@.prop(id)).push((item.id, item.description@)),
            final(self)@.same_props_except(old(self)@, id),
            final(self)@.role == old(self)@.role,
            final(self)@.actions == old(self)@.actions,
            final(self)@.flags == old(self)@.flags,
    {
        let current = get_custom_action_vec_property(&self.class, &self.props, id);
        let mut items = copy_custom_actions(current);
        let ghost before = custom_actions_view(items@);
        items.push(item);
        proof {
            reveal(custom_actions_view);
            assert(custom_actions_view(items@) =~= before.push((item.id, item.description@)));
        }
        self.set_property(id, PropertyValue::CustomActionVec(items));
    }

    /// The role of the node being built.
    pub fn role(&self) -> (r: Role)
        ensures
            r == self@.role,
    {
        self.class.role
    }

    pub fn set_role(&mut self, value: Role)
        requires
            old(self).wf(),
        ensures
            final(self).wf(),
            final(self)@ == (NodeView { role: value, ..old(self)@ }),
    {
        self.class.role = value;
    }

    pub fn supports_action(&self, action: Action) -> (r: bool)
        ensures
            r == self@.supports(action),
    {
        (self.class.actions & action.mask()) != 0
    }

    /// Adds `action` to the supported actions.
    pub fn add_action(&mut self, action: Action)
        requires
            old(self).wf(),
        ensures
            final(self).wf(),
            final(self)@.supports(action),
            forall|b: Action| b != action ==> #[trigger] final(self)@.supports(b) == old(self)@.supports(b),
            final(self)@ == (NodeView { actions: final(self)@.actions, ..old(self)@ }),
            final(self)@.actions == old(self)@.actions | action_mask(action),
    {
        let ghost old_actions = self.class.actions;
        self.class.actions = self.class.actions | action.mask();
        proof {
            assert forall|b: Action| b != action implies
                #[trigger] self@.supports(b) == old(self)@.supports(b) by {
                lemma_set_bit(old_actions, action as u32, b as u32);
            }
            lemma_set_bit(old_actions, action as u32, action as u32);
        }
    }

    /// Removes `action` from the supported actions.
    pub fn remove_action(&mut self, action: Action)
        requires
            old(self).wf(),
        ensures
            final(self).wf(),
            !final(self)@.supports(action),
            forall|b: Action| b != action ==> #[trigger] final(self)@.supports(b) == old(self)@.supports(b),
            final(self)@ == (NodeView { actions: final(self)@.actions, ..old(self)@ }),
            final(self)@.actions == old(self)@.actions & !action_mask(action),
    {
        let ghost old_actions = self.class.actions;
        self.class.actions = self.class.actions & !action.mask();
        proof {
            assert forall|b: Action| b != action implies
                #[trigger] self@.supports(b) == old(self)@.supports(b) by {
                lemma_clear_bit(old_actions, action as u32, b as u32);
            }
            lemma_clear_bit(old_actions, action as u32, action as u32);
        }
    }

    /// Removes every action.
    pub fn clear_actions(&mut self)
        requires
            old(self).wf(),
        ensures
            final(self).wf(),
            forall|b: Action| !#[trigger] final(self)@.supports(b),
            final(self)@ == (NodeView { actions: 0, ..old(self)@ }),
    {
        self.class.actions = 0;
        proof {
            assert forall|b: Action| !#[trigger] self@.supports(b) by {
                lemma_zero_word(b as u32);
            }
        }
    }

    fn get_flag(&self, flag: Flag) -> (r: bool)
        ensures
            r == self@.has_flag(flag),
    {
        (self.flags & flag.mask()) != 0
    }

    fn set_flag(&mut self, flag: Flag)
        requires
            old(self).wf(),
        ensures
            final(self).wf(),
            final(self)@.has_flag(flag),
            forall|g: Flag| g != flag ==> #[trigger] final(self)@.has_flag(g) == old(self)@.has_flag(g),
            final(self)@ == (NodeView { flags: final(self)@.flags, ..old(self)@ }),
            final(self)@.flags == old(self)@.flags | flag_mask(flag),
    {
        let ghost old_flags = self.flags;
        self.flags = self.flags | flag.mask();
        proof {
            assert forall|g: Flag| g != flag implies
                #[trigger] self@.has_flag(g) == old(self)@.has_flag(g) by {
                lemma_set_bit(old_flags, flag as u32, g as u32);
            }
            lemma_set_bit(old_flags, flag as u32, flag as u32);
        }
    }

    fn clear_flag(&mut self, flag: Flag)
        requires
            old(self).wf(),
        ensures
            final(self).wf(),
            !final(self)@.has_flag(flag),
            forall|g: Flag| g != flag ==> #[trigger] final(self)@.has_flag(g) == old(self)@.has_flag(g),
            final(self)@ == (NodeView { flags: final(self)@.flags, ..old(self)@ }),
            final(self)@.flags == old(self)@.flags & !flag_mask(flag),
    {
        let ghost old_flags = self.flags;
        self.flags = self.flags & !flag.mask();
        proof {
            assert forall|g: Flag| g != flag implies
                #[trigger] self@.has_flag(g) == old(self)@.has_flag(g) by {
                lemma_clear_bit(old_flags, flag as u32, g as u32);
            }
            lemma_clear_bit(old_flags, flag as u32, flag as u32);
        }
    }

    /// Makes the node. Its class (role, actions, and which properties are
    /// defined) is shared with the set: an equal class already in the set is
    /// reused, and otherwise the class is added to the set.
    pub fn build(self, classes: &mut NodeClassSet) -> (r: Node)
        requires
            self.wf(),
        ensures
            r@ == self@,
            final(classes)@.len() == old(classes)@.len() || final(classes)@.len() == old(classes)@.len() + 1,
            final(classes)@.subrange(0, old(classes)@.len() as int) == old(classes)@,
            final(classes)@.contains((self@.role, self@.actions, self@.indices)),
            old(classes)@.contains((self@.role, self@.actions, self@.indices)) ==> final(classes)@ == old(classes)@,
    {
        let NodeBuilder { class, flags, props } = self;
        let found = classes.find(&class);
        match found {
            Some(_) => {},
            None => {
                let copy = class.duplicate();
                let ghost before = classes@;
                classes.classes.push(copy);
                proof {
                    assert(classes@ =~= before.push((class.role, class.actions, class.indices@)));
                    assert(classes@[before.len() as int] == (class.role, class.actions, class.indices@));
                }
            },
        }
        let r = Node { class, flags, props };
        proof {
            assert(classes@.subrange(0, old(classes)@.len() as int) =~= old(classes)@);
        }
        r
    }
}

/// The set of node classes that nodes share. A class, once added, stays in
/// the set for the life of the set.
#[derive(Debug)]
pub struct NodeClassSet {
    classes: Vec<NodeClass>,
}

impl View for NodeClassSet {
    type V = Seq<(Role, u32, Seq<u8>)>;

    closed spec fn view(&self) -> Seq<(Role, u32, Seq<u8>)> {
        self.classes@.map_values(|c: NodeClass| (c.role, c.actions, c.indices@))
    }
}

impl NodeClassSet {
    fn find(&self, class: &NodeClass) -> (r: Option<usize>)
        ensures
            match r {
                Some(i) => i < self@.len() && self@[i as int] == (class.role, class.actions, class.indices@),
                None => !self@.contains((class.role, class.actions, class.indices@)),
            },
    {
        let mut i: usize = 0;
        while i < self.classes.len()
            invariant
                i <= self.classes@.len(),
                forall|j: int| 0 <= j < i ==> self@[j] != (class.role, class.actions, class.indices@),
            decreases self.classes@.len() - i,
        {
            if self.classes[i].same_as(class) {
                return Some(i);
            }
            i = i + 1;
        }
        None
    }

    /// An empty set of classes.
    pub fn new() -> (r: NodeClassSet)
        ensures
            r@ == Seq::<(Role, u32, Seq<u8>)>::empty(),
    {
        let r = NodeClassSet { classes: Vec::new() };
        assert(r@ =~= Seq::<(Role, u32, Seq<u8>)>::empty());
        r
    }
}

impl Node {
    /// A copy of the node.
    pub fn duplicate(&self) -> (r: Node)
        ensures
            r@ == self@,
    {
        proof { use_type_invariant(self); }
        Node { class: self.class.duplicate(), flags: self.flags, props: copy_props(&self.props) }
    }

    pub fn role(&self) -> (r: Role)
        ensures
            r == self@.role,
    {
        self.class.role
    }

    pub fn supports_action(&self, action: Action) -> (r: bool)
        ensures
            r == self@.supports(action),
    {
        (self.class.actions & action.mask()) != 0
    }

    fn get_flag(&self, flag: Flag) -> (r: bool)
        ensures
            r == self@.has_flag(flag),
    {
        (self.flags & flag.mask()) != 0
    }
}


fn same_node_ids(a: &[NodeId], b: &[NodeId]) -> (r: bool)
    ensures
        r == (a@ == b@),
{
    if a.len() != b.len() {
        return false;
    }
    let mut i: usize = 0;
    while i < a.len()
        invariant
            i <= a@.len(),
            a@.len() == b@.len(),
            forall|j: int| 0 <= j < i ==> a@[j] == b@[j],
        decreases a@.len() - i,
    {
        if a[i] != b[i] {
            return false;
        }
        i = i + 1;
    }
    assert(a@ =~= b@);
    true
}

fn same_lengths(a: &[u8], b: &[u8]) -> (r: bool)
    ensures
        r == (a@ == b@),
{
    if a.len() != b.len() {
        return false;
    }
    let mut i: usize = 0;
    while i < a.len()
        invariant
            i <= a@.len(),
            a@.len() == b@.len(),
            forall|j: int| 0 <= j < i ==> a@[j] == b@[j],
        decreases a@.len() - i,
    {
        if a[i] != b[i] {
            return false;
        }
        i = i + 1;
    }
    assert(a@ =~= b@);
    true
}

fn same_custom_actions(a: &[CustomAction], b: &[CustomAction]) -> (r: bool)
    ensures
        r == (custom_actions_view(a@) == custom_actions_view(b@)),
{
    reveal(custom_actions_view);
    if a.len() != b.len() {
        assert(custom_actions_view(a@).len() != custom_actions_view(b@).len());
        return false;
    }
    let mut i: usize = 0;
    while i < a.len()
        invariant
            i <= a@.len(),
            a@.len() == b@.len(),
            forall|j: int| 0 <= j < i ==> #[trigger] custom_actions_view(a@)[j] == custom_actions_view(b@)[j],
        decreases a@.len() - i,
    {
        proof { reveal(custom_actions_view); }
        if a[i].id != b[i].id || a[i].description != b[i].description {
            assert(custom_actions_view(a@)[i as int] != custom_actions_view(b@)[i as int]);
            return false;
        }
        i = i + 1;
    }
    assert(custom_actions_view(a@) =~= custom_actions_view(b@));
    true
}

#[verifier::spinoff_prover]
#[verifier::rlimit(80)]
fn same_value(a: &PropertyValue, b: &PropertyValue) -> (r: bool)
    ensures
        r == (a.view() == b.view()),
{
    match a {
        PropertyValue::Empty => match b {
            PropertyValue::Empty => true,
            _ => false,
        },
        PropertyValue::NodeIdVec(x) => match b {
            PropertyValue::NodeIdVec(y) => same_node_ids(x.as_slice(), y.as_slice()),
            _ => false,
        },
        PropertyValue::String(x) => match b {
            PropertyValue::String(y) => *x == *y,
            _ => false,
        },
        PropertyValue::LengthSlice(x) => match b {
            PropertyValue::LengthSlice(y) => same_lengths(x.as_slice(), y.as_slice()),
            _ => false,
        },
        PropertyValue::CustomActionVec(x) => match b {
            PropertyValue::CustomActionVec(y) => same_custom_actions(x.as_slice(), y.as_slice()),
            _ => false,
        },
        PropertyValue::NodeId(x) => match b {
            PropertyValue::NodeId(y) => *x == *y,
            _ => false,
        },
        PropertyValue::Usize(x) => match b {
            PropertyValue::Usize(y) => *x == *y,
            _ => false,
        },
        PropertyValue::Color(x) => match b {
            PropertyValue::Color(y) => *x == *y,
            _ => false,
        },
        PropertyValue::TextDecoration(x) => match b {
            PropertyValue::TextDecoration(y) => *x == *y,
            _ => false,
        },
        PropertyValue::Bool(x) => match b {
            PropertyValue::Bool(y) => *x == *y,
            _ => false,
        },
        PropertyValue::Invalid(x) => match b {
            PropertyValue::Invalid(y) => *x == *y,
            _ => false,
        },
        PropertyValue::Checked(x) => match b {
            PropertyValue::Checked(y) => *x == *y,
            _ => false,
        },
        PropertyValue::Live(x) => match b {
            PropertyValue::Live(y) => *x == *y,
            _ => false,
        },
        PropertyValue::DefaultActionVerb(x) => match b {
            PropertyValue::DefaultActionVerb(y) => *x == *y,
            _ => false,
        },
        PropertyValue::TextDirection(x) => match b {
            PropertyValue::TextDirection(y) => *x == *y,
            _ => false,
        },
        PropertyValue::Orientation(x) => match b {
            PropertyValue::Orientation(y) => *x == *y,
            _ => false,
        },
        PropertyValue::SortDirection(x) => match b {
            PropertyValue::SortDirection(y) => *x == *y,
            _ => false,
        },
        PropertyValue::AriaCurrent(x) => match b {
            PropertyValue::AriaCurrent(y) => *x == *y,
            _ => false,
        },
        PropertyValue::AutoComplete(x) => match b {
            PropertyValue::AutoComplete(y) => *x == *y,
            _ => false,
        },
        PropertyValue::HasPopup(x) => match b {
            PropertyValue::HasPopup(y) => *x == *y,
            _ => false,
        },
        PropertyValue::ListStyle(x) => match b {
            PropertyValue::ListStyle(y) => *x == *y,
            _ => false,
        },
        PropertyValue::TextAlign(x) => match b {
            PropertyValue::TextAlign(y) => *x == *y,
            _ => false,
        },
        PropertyValue::VerticalOffset(x) => match b {
            PropertyValue::VerticalOffset(y) => *x == *y,
            _ => false,
        },
        PropertyValue::TextSelection(x) => match b {
            PropertyValue::TextSelection(y) => *x == *y,
            _ => false,
        },
        PropertyValue::TreeId(x) => match b {
            PropertyValue::TreeId(y) => *x == *y,
            _ => false,
        },
    }
}

impl Node {
    /// Whether the two nodes are the same: the same role, actions and flags,
    /// and the same property table, slot for slot.
    pub fn same_as(&self, other: &Node) -> (r: bool)
        ensures
            r == (self@ == other@),
    {
        if !self.class.same_as(&other.class) || self.flags != other.flags
            || self.props.len() != other.props.len() {
            proof {
                if self.props.len() != other.props.len() {
                    assert(self@.props.len() != other@.props.len());
                }
            }
            return false;
        }
        let mut i: usize = 0;
        while i < self.props.len()
            invariant
                i <= self.props@.len(),
                self.props@.len() == other.props@.len(),
                forall|j: int| 0 <= j < i ==> #[trigger] self.props@[j].view() == other.props@[j].view(),
            decreases self.props@.len() - i,
        {
            if !same_value(&self.props[i], &other.props[i]) {
                assert(self@.props[i as int] != other@.props[i as int]);
                return false;
            }
            i = i + 1;
        }
        assert(self@.props =~= other@.props);
        true
    }
}

/// The data of an accessibility tree that is global to the tree and not
/// tied to any node.
#[derive(Debug)]
pub struct Tree {
    /// The identifier of the tree's root node.
    pub root: NodeId,
    /// The name of the application this tree belongs to.
    pub app_name: Option<String>,
    /// The name of the UI toolkit in use.
    pub toolkit_name: Option<String>,
    /// The version of the UI toolkit.
    pub toolkit_version: Option<String>,
}

/// The abstract value of optional text.
pub open spec fn opt_string_view(o: Option<String>) -> Option<Seq<char>> {
    match o {
        Some(s) => Some(s@),
        None => None,
    }
}

/// The abstract value of a tree's global data.
pub struct TreeView {
    pub root: NodeId,
    pub app_name: Option<Seq<char>>,
    pub toolkit_name: Option<Seq<char>>,
    pub toolkit_version: Option<Seq<char>>,
}

impl View for Tree {
    type V = TreeView;

    open spec fn view(&self) -> TreeView {
        TreeView {
            root: self.root,
            app_name: opt_string_view(self.app_name),
            toolkit_name: opt_string_view(self.toolkit_name),
            toolkit_version: opt_string_view(self.toolkit_version),
        }
    }
}

fn copy_opt_string(o: &Option<String>) -> (r: Option<String>)
    ensures
        opt_string_view(r) == opt_string_view(*o),
{
    match o {
        Some(s) => Some(s.clone()),
        None => None,
    }
}

fn same_opt_string(a: &Option<String>, b: &Option<String>) -> (r: bool)
    ensures
        r == (opt_string_view(*a) == opt_string_view(*b)),
{
    match (a, b) {
        (Some(x), Some(y)) => *x == *y,
        (None, None) => true,
        _ => false,
    }
}

impl Tree {
    /// Global data for a tree with the given root and no names.
    pub fn new(root: NodeId) -> (r: Tree)
        ensures
            r@ == (TreeView { root, app_name: None, toolkit_name: None, toolkit_version: None }),
    {
        Tree { root, app_name: None, toolkit_name: None, toolkit_version: None }
    }

    /// A copy of the tree's data.
    pub fn duplicate(&self) -> (r: Tree)
        ensures
            r@ == self@,
    {
        Tree {
            root: self.root,
            app_name: copy_opt_string(&self.app_name),
            toolkit_name: copy_opt_string(&self.toolkit_name),
            toolkit_version: copy_opt_string(&self.toolkit_version),
        }
    }

    /// Whether the two trees hold the same data.
    pub fn same_as(&self, other: &Tree) -> (r: bool)
        ensures
            r == (self@ == other@),
    {
        self.root == other.root && same_opt_string(&self.app_name, &other.app_name)
            && same_opt_string(&self.toolkit_name, &other.toolkit_name)
            && same_opt_string(&self.toolkit_version, &other.toolkit_version)
    }
}

/// An atomic change to a tree.
///
/// The sender and receiver must be in sync; the update is only meant to
/// bring the tree from a specific previous state into its next state.
#[derive(Debug)]
pub struct TreeUpdate {
    /// Zero or more new or updated nodes. Each node in this list overwrites
    /// any existing node with the same ID. To add a child, the list must
    /// include both the child and an updated version of the parent; to remove
    /// a child and its descendants, the list must include an updated version
    /// of the parent without the child.
    pub nodes: Vec<(NodeId, Node)>,
    /// Rarely updated information about the tree as a whole; required when
    /// initializing a tree or a subtree.
    pub tree: Option<Tree>,
    /// The tree that this update applies to: the root tree or a subtree.
    pub tree_id: TreeId,
    /// The node within this tree that has keyboard focus when the native
    /// host has focus.
    pub focus: NodeId,
}

impl Node {
    pub fn children(&self) -> (r: &[NodeId])
        ensures
            r@ == node_id_vec_value(self@.prop(PROP_CHILDREN)),
    {
        proof { use_type_invariant(self); }
        get_node_id_vec_property(&self.class, &self.props, PROP_CHILDREN)
    }

    pub fn controls(&self) -> (r: &[NodeId])
        ensures
            r@ == node_id_vec_value(self@.prop(PROP_CONTROLS)),
    {
        proof { use_type_invariant(self); }
        get_node_id_vec_property(&self.class, &self.props, PROP_CONTROLS)
    }

    pub fn details(&self) -> (r: &[NodeId])
        ensures
            r@ == node_id_vec_value(self@.prop(PROP_DETAILS)),
    {
        proof { use_type_invariant(self); }
        get_node_id_vec_property(&self.class, &self.props, PROP_DETAILS)
    }

    pub fn described_by(&self) -> (r: &[NodeId])
        ensures
            r@ == node_id_vec_value(self@.prop(PROP_DESCRIBED_BY)),
    {
        proof { use_type_invariant(self); }
        get_node_id_vec_property(&self.class, &self.props, PROP_DESCRIBED_BY)
    }

    pub fn flow_to(&self) -> (r: &[NodeId])
        ensures
            r@ == node_id_vec_value(self@.prop(PROP_FLOW_TO)),
    {
        proof { use_type_invariant(self); }
        get_node_id_vec_property(&self.class, &self.props, PROP_FLOW_TO)
    }

    pub fn labelled_by(&self) -> (r: &[NodeId])
        ensures
            r@ == node_id_vec_value(self@.prop(PROP_LABELLED_BY)),
    {
        proof { use_type_invariant(self); }
        get_node_id_vec_property(&self.class, &self.props, PROP_LABELLED_BY)
    }

    pub fn radio_group(&self) -> (r: &[NodeId])
        ensures
            r@ == node_id_vec_value(self@.prop(PROP_RADIO_GROUP)),
    {
        proof { use_type_invariant(self); }
        get_node_id_vec_property(&self.class, &self.props, PROP_RADIO_GROUP)
    }

    pub fn active_descendant(&self) -> (r: Option<NodeId>)
        ensures
            r == node_id_value(self@.prop(PROP_ACTIVE_DESCENDANT)),
    {
        proof { use_type_invariant(self); }
        get_node_id_property(&self.class, &self.props, PROP_ACTIVE_DESCENDANT)
    }

    pub fn error_message(&self) -> (r: Option<NodeId>)
        ensures
            r == node_id_value(self@.prop(PROP_ERROR_MESSAGE)),
    {
        proof { use_type_invariant(self); }
        get_node_id_property(&self.class, &self.props, PROP_ERROR_MESSAGE)
    }

    pub fn in_page_link_target(&self) -> (r: Option<NodeId>)
        ensures
            r == node_id_value(self@.prop(PROP_IN_PAGE_LINK_TARGET)),
    {
        proof { use_type_invariant(self); }
        get_node_id_property(&self.class, &self.props, PROP_IN_PAGE_LINK_TARGET)
    }

    pub fn member_of(&self) -> (r: Option<NodeId>)
        ensures
            r == node_id_value(self@.prop(PROP_MEMBER_OF)),
    {
        proof { use_type_invariant(self); }
        get_node_id_property(&self.class, &self.props, PROP_MEMBER_OF)
    }

    pub fn next_on_line(&self) -> (r: Option<NodeId>)
        ensures
            r == node_id_value(self@.prop(PROP_NEXT_ON_LINE)),
    {
        proof { use_type_invariant(self); }
        get_node_id_property(&self.class, &self.props, PROP_NEXT_ON_LINE)
    }

    pub fn previous_on_line(&self) -> (r: Option<NodeId>)
        ensures
            r == node_id_value(self@.prop(PROP_PREVIOUS_ON_LINE)),
    {
        proof { use_type_invariant(self); }
        get_node_id_property(&self.class, &self.props, PROP_PREVIOUS_ON_LINE)
    }

    pub fn popup_for(&self) -> (r: Option<NodeId>)
        ensures
            r == node_id_value(self@.prop(PROP_POPUP_FOR)),
    {
        proof { use_type_invariant(self); }
        get_node_id_property(&self.class, &self.props, PROP_POPUP_FOR)
    }

    pub fn table_header(&self) -> (r: Option<NodeId>)
        ensures
            r == node_id_value(self@.prop(PROP_TABLE_HEADER)),
    {
        proof { use_type_invariant(self); }
        get_node_id_property(&self.class, &self.props, PROP_TABLE_HEADER)
    }

    pub fn table_row_header(&self) -> (r: Option<NodeId>)
        ensures
            r == node_id_value(self@.prop(PROP_TABLE_ROW_HEADER)),
    {
        proof { use_type_invariant(self); }
        get_node_id_property(&self.class, &self.props, PROP_TABLE_ROW_HEADER)
    }

    pub fn table_column_header(&self) -> (r: Option<NodeId>)
        ensures
            r == node_id_value(self@.prop(PROP_TABLE_COLUMN_HEADER)),
    {
        proof { use_type_invariant(self); }
        get_node_id_property(&self.class, &self.props, PROP_TABLE_COLUMN_HEADER)
    }

    pub fn name(&self) -> (r: Option<&str>)
        ensures
            opt_str_view(r) == string_value(self@.prop(PROP_NAME)),
    {
        proof { use_type_invariant(self); }
        get_string_property(&self.class, &self.props, PROP_NAME)
    }

    pub fn description(&self) -> (r: Option<&str>)
        ensures
            opt_str_view(r) == string_value(self@.prop(PROP_DESCRIPTION)),
    {
        proof { use_type_invariant(self); }
        get_string_property(&self.class, &self.props, PROP_DESCRIPTION)
    }

    pub fn value(&self) -> (r: Option<&str>)
        ensures
            opt_str_view(r) == string_value(self@.prop(PROP_VALUE)),
    {
        proof { use_type_invariant(self); }
        get_string_property(&self.class, &self.props, PROP_VALUE)
    }

    pub fn access_key(&self) -> (r: Option<&str>)
        ensures
            opt_str_view(r) == string_value(self@.prop(PROP_ACCESS_KEY)),
    {
        proof { use_type_invariant(self); }
        get_string_property(&self.class, &self.props, PROP_ACCESS_KEY)
    }

    pub fn class_name(&self) -> (r: Option<&str>)
        ensures
            opt_str_view(r) == string_value(self@.prop(PROP_CLASS_NAME)),
    {
        proof { use_type_invariant(self); }
        get_string_property(&self.class, &self.props, PROP_CLASS_NAME)
    }

    pub fn font_family(&self) -> (r: Option<&str>)
        ensures
            opt_str_view(r) == string_value(self@.prop(PROP_FONT_FAMILY)),
    {
        proof { use_type_invariant(self); }
        get_string_property(&self.class, &self.props, PROP_FONT_FAMILY)
    }

    pub fn html_tag(&self) -> (r: Option<&str>)
        ensures
            opt_str_view(r) == string_value(self@.prop(PROP_HTML_TAG)),
    {
        proof { use_type_invariant(self); }
        get_string_property(&self.class, &self.props, PROP_HTML_TAG)
    }

    pub fn inner_html(&self) -> (r: Option<&str>)
        ensures
            opt_str_view(r) == string_value(self@.prop(PROP_INNER_HTML)),
    {
        proof { use_type_invariant(self); }
        get_string_property(&self.class, &self.props, PROP_INNER_HTML)
    }

    pub fn keyboard_shortcut(&self) -> (r: Option<&str>)
        ensures
            opt_str_view(r) == string_value(self@.prop(PROP_KEYBOARD_SHORTCUT)),
    {
        proof { use_type_invariant(self); }
        get_string_property(&self.class, &self.props, PROP_KEYBOARD_SHORTCUT)
    }

    pub fn language(&self) -> (r: Option<&str>)
        ensures
            opt_str_view(r) == string_value(self@.prop(PROP_LANGUAGE)),
    {
        proof { use_type_invariant(self); }
        get_string_property(&self.class, &self.props, PROP_LANGUAGE)
    }

    pub fn placeholder(&self) -> (r: Option<&str>)
        ensures
            opt_str_view(r) == string_value(self@.prop(PROP_PLACEHOLDER)),
    {
        proof { use_type_invariant(self); }
        get_string_property(&self.class, &self.props, PROP_PLACEHOLDER)
    }

    pub fn role_description(&self) -> (r: Option<&str>)
        ensures
            opt_str_view(r) == string_value(self@.prop(PROP_ROLE_DESCRIPTION)),
    {
        proof { use_type_invariant(self); }
        get_string_property(&self.class, &self.props, PROP_ROLE_DESCRIPTION)
    }

    pub fn state_description(&self) -> (r: Option<&str>)
        ensures
            opt_str_view(r) == string_value(self@.prop(PROP_STATE_DESCRIPTION)),
    {
        proof { use_type_invariant(self); }
        get_string_property(&self.class, &self.props, PROP_STATE_DESCRIPTION)
    }

    pub fn tooltip(&self) -> (r: Option<&str>)
        ensures
            opt_str_view(r) == string_value(self@.prop(PROP_TOOLTIP)),
    {
        proof { use_type_invariant(self); }
        get_string_property(&self.class, &self.props, PROP_TOOLTIP)
    }

    pub fn url(&self) -> (r: Option<&str>)
        ensures
            opt_str_view(r) == string_value(self@.prop(PROP_URL)),
    {
        proof { use_type_invariant(self); }
        get_string_property(&self.class, &self.props, PROP_URL)
    }

    pub fn author_id(&self) -> (r: Option<&str>)
        ensures
            opt_str_view(r) == string_value(self@.prop(PROP_AUTHOR_ID)),
    {
        proof { use_type_invariant(self); }
        get_string_property(&self.class, &self.props, PROP_AUTHOR_ID)
    }

    pub fn table_row_count(&self) -> (r: Option<usize>)
        ensures
            r == usize_value(self@.prop(PROP_TABLE_ROW_COUNT)),
    {
        proof { use_type_invariant(self); }
        get_usize_property(&self.class, &self.props, PROP_TABLE_ROW_COUNT)
    }

    pub fn table_column_count(&self) -> (r: Option<usize>)
        ensures
            r == usize_value(self@.prop(PROP_TABLE_COLUMN_COUNT)),
    {
        proof { use_type_invariant(self); }
        get_usize_property(&self.class, &self.props, PROP_TABLE_COLUMN_COUNT)
    }

    pub fn table_row_index(&self) -> (r: Option<usize>)
        ensures
            r == usize_value(self@.prop(PROP_TABLE_ROW_INDEX)),
    {
        proof { use_type_invariant(self); }
        get_usize_property(&self.class, &self.props, PROP_TABLE_ROW_INDEX)
    }

    pub fn table_column_index(&self) -> (r: Option<usize>)
        ensures
            r == usize_value(self@.prop(PROP_TABLE_COLUMN_INDEX)),
    {
        proof { use_type_invariant(self); }
        get_usize_property(&self.class, &self.props, PROP_TABLE_COLUMN_INDEX)
    }

    pub fn table_cell_column_index(&self) -> (r: Option<usize>)
        ensures
            r == usize_value(self@.prop(PROP_TABLE_CELL_COLUMN_INDEX)),
    {
        proof { use_type_invariant(self); }
        get_usize_property(&self.class, &self.props, PROP_TABLE_CELL_COLUMN_INDEX)
    }

    pub fn table_cell_column_span(&self) -> (r: Option<usize>)
        ensures
            r == usize_value(self@.prop(PROP_TABLE_CELL_COLUMN_SPAN)),
    {
        proof { use_type_invariant(self); }
        get_usize_property(&self.class, &self.props, PROP_TABLE_CELL_COLUMN_SPAN)
    }

    pub fn table_cell_row_index(&self) -> (r: Option<usize>)
        ensures
            r == usize_value(self@.prop(PROP_TABLE_CELL_ROW_INDEX)),
    {
        proof { use_type_invariant(self); }
        get_usize_property(&self.class, &self.props, PROP_TABLE_CELL_ROW_INDEX)
    }

    pub fn table_cell_row_span(&self) -> (r: Option<usize>)
        ensures
            r == usize_value(self@.prop(PROP_TABLE_CELL_ROW_SPAN)),
    {
        proof { use_type_invariant(self); }
        get_usize_property(&self.class, &self.props, PROP_TABLE_CELL_ROW_SPAN)
    }

    pub fn hierarchical_level(&self) -> (r: Option<usize>)
        ensures
            r == usize_value(self@.prop(PROP_HIERARCHICAL_LEVEL)),
    {
        proof { use_type_invariant(self); }
        get_usize_property(&self.class, &self.props, PROP_HIERARCHICAL_LEVEL)
    }

    pub fn size_of_set(&self) -> (r: Option<usize>)
        ensures
            r == usize_value(self@.prop(PROP_SIZE_OF_SET)),
    {
        proof { use_type_invariant(self); }
        get_usize_property(&self.class, &self.props, PROP_SIZE_OF_SET)
    }

    pub fn position_in_set(&self) -> (r: Option<usize>)
        ensures
            r == usize_value(self@.prop(PROP_POSITION_IN_SET)),
    {
        proof { use_type_invariant(self); }
        get_usize_property(&self.class, &self.props, PROP_POSITION_IN_SET)
    }

    pub fn color_value(&self) -> (r: Option<u32>)
        ensures
            r == color_value(self@.prop(PROP_COLOR_VALUE)),
    {
        proof { use_type_invariant(self); }
        get_color_property(&self.class, &self.props, PROP_COLOR_VALUE)
    }

    pub fn background_color(&self) -> (r: Option<u32>)
        ensures
            r == color_value(self@.prop(PROP_BACKGROUND_COLOR)),
    {
        proof { use_type_invariant(self); }
        get_color_property(&self.class, &self.props, PROP_BACKGROUND_COLOR)
    }

    pub fn foreground_color(&self) -> (r: Option<u32>)
        ensures
            r == color_value(self@.prop(PROP_FOREGROUND_COLOR)),
    {
        proof { use_type_invariant(self); }
        get_color_property(&self.class, &self.props, PROP_FOREGROUND_COLOR)
    }

    pub fn overline(&self) -> (r: Option<TextDecoration>)
        ensures
            r == text_decoration_value(self@.prop(PROP_OVERLINE)),
    {
        proof { use_type_invariant(self); }
        get_text_decoration_property(&self.class, &self.props, PROP_OVERLINE)
    }

    pub fn strikethrough(&self) -> (r: Option<TextDecoration>)
        ensures
            r == text_decoration_value(self@.prop(PROP_STRIKETHROUGH)),
    {
        proof { use_type_invariant(self); }
        get_text_decoration_property(&self.class, &self.props, PROP_STRIKETHROUGH)
    }

    pub fn underline(&self) -> (r: Option<TextDecoration>)
        ensures
            r == text_decoration_value(self@.prop(PROP_UNDERLINE)),
    {
        proof { use_type_invariant(self); }
        get_text_decoration_property(&self.class, &self.props, PROP_UNDERLINE)
    }

    pub fn character_lengths(&self) -> (r: &[u8])
        ensures
            r@ == length_slice_value(self@.prop(PROP_CHARACTER_LENGTHS)),
    {
        proof { use_type_invariant(self); }
        get_length_slice_property(&self.class, &self.props, PROP_CHARACTER_LENGTHS)
    }

    pub fn word_lengths(&self) -> (r: &[u8])
        ensures
            r@ == length_slice_value(self@.prop(PROP_WORD_LENGTHS)),
    {
        proof { use_type_invariant(self); }
        get_length_slice_property(&self.class, &self.props, PROP_WORD_LENGTHS)
    }

    pub fn is_expanded(&self) -> (r: Option<bool>)
        ensures
            r == bool_value(self@.prop(PROP_EXPANDED)),
    {
        proof { use_type_invariant(self); }
        get_bool_property(&self.class, &self.props, PROP_EXPANDED)
    }

    pub fn is_selected(&self) -> (r: Option<bool>)
        ensures
            r == bool_value(self@.prop(PROP_SELECTED)),
    {
        proof { use_type_invariant(self); }
        get_bool_property(&self.class, &self.props, PROP_SELECTED)
    }

    pub fn invalid(&self) -> (r: Option<Invalid>)
        ensures
            r == invalid_value(self@.prop(PROP_INVALID)),
    {
        proof { use_type_invariant(self); }
        get_invalid_property(&self.class, &self.props, PROP_INVALID)
    }

    pub fn checked(&self) -> (r: Option<Checked>)
        ensures
            r == checked_value(self@.prop(PROP_CHECKED)),
    {
        proof { use_type_invariant(self); }
        get_checked_property(&self.class, &self.props, PROP_CHECKED)
    }

    pub fn live(&self) -> (r: Option<Live>)
        ensures
            r == live_value(self@.prop(PROP_LIVE)),
    {
        proof { use_type_invariant(self); }
        get_live_property(&self.class, &self.props, PROP_LIVE)
    }

    pub fn default_action_verb(&self) -> (r: Option<DefaultActionVerb>)
        ensures
            r == default_action_verb_value(self@.prop(PROP_DEFAULT_ACTION_VERB)),
    {
        proof { use_type_invariant(self); }
        get_default_action_verb_property(&self.class, &self.props, PROP_DEFAULT_ACTION_VERB)
    }

    pub fn text_direction(&self) -> (r: Option<TextDirection>)
        ensures
            r == text_direction_value(self@.prop(PROP_TEXT_DIRECTION)),
    {
        proof { use_type_invariant(self); }
        get_text_direction_property(&self.class, &self.props, PROP_TEXT_DIRECTION)
    }

    pub fn orientation(&self) -> (r: Option<Orientation>)
        ensures
            r == orientation_value(self@.prop(PROP_ORIENTATION)),
    {
        proof { use_type_invariant(self); }
        get_orientation_property(&self.class, &self.props, PROP_ORIENTATION)
    }

    pub fn sort_direction(&self) -> (r: Option<SortDirection>)
        ensures
            r == sort_direction_value(self@.prop(PROP_SORT_DIRECTION)),
    {
        proof { use_type_invariant(self); }
        get_sort_direction_property(&self.class, &self.props, PROP_SORT_DIRECTION)
    }

    pub fn aria_current(&self) -> (r: Option<AriaCurrent>)
        ensures
            r == aria_current_value(self@.prop(PROP_ARIA_CURRENT)),
    {
        proof { use_type_invariant(self); }
        get_aria_current_property(&self.class, &self.props, PROP_ARIA_CURRENT)
    }

    pub fn auto_complete(&self) -> (r: Option<AutoComplete>)
        ensures
            r == auto_complete_value(self@.prop(PROP_AUTO_COMPLETE)),
    {
        proof { use_type_invariant(self); }
        get_auto_complete_property(&self.class, &self.props, PROP_AUTO_COMPLETE)
    }

    pub fn has_popup(&self) -> (r: Option<HasPopup>)
        ensures
            r == has_popup_value(self@.prop(PROP_HAS_POPUP)),
    {
        proof { use_type_invariant(self); }
        get_has_popup_property(&self.class, &self.props, PROP_HAS_POPUP)
    }

    pub fn list_style(&self) -> (r: Option<ListStyle>)
        ensures
            r == list_style_value(self@.prop(PROP_LIST_STYLE)),
    {
        proof { use_type_invariant(self); }
        get_list_style_property(&self.class, &self.props, PROP_LIST_STYLE)
    }

    pub fn text_align(&self) -> (r: Option<TextAlign>)
        ensures
            r == text_align_value(self@.prop(PROP_TEXT_ALIGN)),
    {
        proof { use_type_invariant(self); }
        get_text_align_property(&self.class, &self.props, PROP_TEXT_ALIGN)
    }

    pub fn vertical_offset(&self) -> (r: Option<VerticalOffset>)
        ensures
            r == vertical_offset_value(self@.prop(PROP_VERTICAL_OFFSET)),
    {
        proof { use_type_invariant(self); }
        get_vertical_offset_property(&self.class, &self.props, PROP_VERTICAL_OFFSET)
    }

    pub fn text_selection(&self) -> (r: Option<TextSelection>)
        ensures
            r == text_selection_value(self@.prop(PROP_TEXT_SELECTION)),
    {
        proof { use_type_invariant(self); }
        get_text_selection_property(&self.class, &self.props, PROP_TEXT_SELECTION)
    }

    pub fn custom_actions(&self) -> (r: &[CustomAction])
        ensures
            custom_actions_view(r@) == custom_action_vec_value(self@.prop(PROP_CUSTOM_ACTIONS)),
    {
        proof { use_type_invariant(self); }
        get_custom_action_vec_property(&self.class, &self.props, PROP_CUSTOM_ACTIONS)
    }

    pub fn tree_id(&self) -> (r: Option<TreeId>)
        ensures
            r == tree_id_value(self@.prop(PROP_TREE_ID)),
    {
        proof { use_type_invariant(self); }
        get_tree_id_property(&self.class, &self.props, PROP_TREE_ID)
    }

}

impl NodeBuilder {
    pub fn children(&self) -> (r: &[NodeId])
        requires
            self.wf(),
        ensures
            r@ == node_id_vec_value(self@.prop(PROP_CHILDREN)),
    {
        get_node_id_vec_property(&self.class, &self.props, PROP_CHILDREN)
    }

    pub fn set_children(&mut self, value: Vec<NodeId>)
        requires
            old(self).wf(),
        ensures
            final(self).wf(),
            final(self)@.prop(PROP_CHILDREN) == PropertyView::NodeIdVec(value@),
            final(self)@.same_props_except(old(self)@, PROP_CHILDREN),
            final(self)@.role == old(self)@.role,
            final(self)@.actions == old(self)@.actions,
            final(self)@.flags == old(self)@.flags,
    {
        self.set_property(PROP_CHILDREN, PropertyValue::NodeIdVec(value));
    }

    pub fn clear_children(&mut self)
        requires
            old(self).wf(),
        ensures
            final(self).wf(),
            final(self)@.prop(PROP_CHILDREN) == PropertyView::Empty,
            final(self)@.same_props_except(old(self)@, PROP_CHILDREN),
            final(self)@.role == old(self)@.role,
            final(self)@.actions == old(self)@.actions,
            final(self)@.flags == old(self)@.flags,
    {
        self.clear_property(PROP_CHILDREN);
    }

    pub fn push_child(&mut self, item: NodeId)
        requires
            old(self).wf(),
        ensures
            final(self).wf(),
            node_id_vec_value(final(self)@.prop(PROP_CHILDREN)) == node_id_vec_value(old(self)@.prop(PROP_CHILDREN)).push(item),
            final(self)@.same_props_except(old(self)@, PROP_CHILDREN),
            final(self)@.role == old(self)@.role,
            final(self)@.actions == old(self)@.actions,
            final(self)@.flags == old(self)@.flags,
    {
        self.push_to_node_id_vec(PROP_CHILDREN, item);
    }

    pub fn controls(&self) -> (r: &[NodeId])
        requires
            self.wf(),
        ensures
            r@ == node_id_vec_value(self@.prop(PROP_CONTROLS)),
    {
        get_node_id_vec_property(&self.class, &self.props, PROP_CONTROLS)
    }

    pub fn set_controls(&mut self, value: Vec<NodeId>)
        requires
            old(self).wf(),
        ensures
            final(self).wf(),
            final(self)@.prop(PROP_CONTROLS) == PropertyView::NodeIdVec(value@),
            final(self)@.same_props_except(old(self)@, PROP_CONTROLS),
            final(self)@.role == old(self)@.role,
            final(self)@.actions == old(self)@.actions,
            final(self)@.flags == old(self)@.flags,
    {
        self.set_property(PROP_CONTROLS, PropertyValue::NodeIdVec(value));
    }

    pub fn clear_controls(&mut self)
        requires
            old(self).wf(),
        ensures
            final(self).wf(),
            final(self)@.prop(PROP_CONTROLS) == PropertyView::Empty,
            final(self)@.same_props_except(old(self)@, PROP_CONTROLS),
            final(self)@.role == old(self)@.role,
            final(self)@.actions == old(self)@.actions,
            final(self)@.flags == old(self)@.flags,
    {
        self.clear_property(PROP_CONTROLS);
    }

    pub fn push_controlled(&mut self, item: NodeId)
        requires
            old(self).wf(),
        ensures
            final(self).wf(),
            node_id_vec_value(final(self)@.prop(PROP_CONTROLS)) == node_id_vec_value(old(self)@.prop(PROP_CONTROLS)).push(item),
            final(self)@.same_props_except(old(self)@, PROP_CONTROLS),
            final(self)@.role == old(self)@.role,
            final(self)@.actions == old(self)@.actions,
            final(self)@.flags == old(self)@.flags,
    {
        self.push_to_node_id_vec(PROP_CONTROLS, item);
    }

    pub fn details(&self) -> (r: &[NodeId])
        requires
            self.wf(),
        ensures
            r@ == node_id_vec_value(self@.prop(PROP_DETAILS)),
    {
        get_node_id_vec_property(&self.class, &self.props, PROP_DETAILS)
    }

    pub fn set_details(&mut self, value: Vec<NodeId>)
        requires
            old(self).wf(),
        ensures
            final(self).wf(),
            final(self)@.prop(PROP_DETAILS) == PropertyView::NodeIdVec(value@),
            final(self)@.same_props_except(old(self)@, PROP_DETAILS),
            final(self)@.role == old(self)@.role,
            final(self)@.actions == old(self)@.actions,
            final(self)@.flags == old(self)@.flags,
    {
        self.set_property(PROP_DETAILS, PropertyValue::NodeIdVec(value));
    }

    pub fn clear_details(&mut self)
        requires
            old(self).wf(),
        ensures
            final(self).wf(),
            final(self)@.prop(PROP_DETAILS) == PropertyView::Empty,
            final(self)@.same_props_except(old(self)@, PROP_DETAILS),
            final(self)@.role == old(self)@.role,
            final(self)@.actions == old(self)@.actions,
            final(self)@.flags == old(self)@.flags,
    {
        self.clear_property(PROP_DETAILS);
    }

    pub fn push_detail(&mut self, item: NodeId)
        requires
            old(self).wf(),
        ensures
            final(self).wf(),
            node_id_vec_value(final(self)@.prop(PROP_DETAILS)) == node_id_vec_value(old(self)@.prop(PROP_DETAILS)).push(item),
            final(self)@.same_props_except(old(self)@, PROP_DETAILS),
            final(self)@.role == old(self)@.role,
            final(self)@.actions == old(self)@.actions,
            final(self)@.flags == old(self)@.flags,
    {
        self.push_to_node_id_vec(PROP_DETAILS, item);
    }

    pub fn described_by(&self) -> (r: &[NodeId])
        requires
            self.wf(),
        ensures
            r@ == node_id_vec_value(self@.prop(PROP_DESCRIBED_BY)),
    {
        get_node_id_vec_property(&self.class, &self.props, PROP_DESCRIBED_BY)
    }

    pub fn set_described_by(&mut self, value: Vec<NodeId>)
        requires
            old(self).wf(),
        ensures
            final(self).wf(),
            final(self)@.prop(PROP_DESCRIBED_BY) == PropertyView::NodeIdVec(value@),
            final(self)@.same_props_except(old(self)@, PROP_DESCRIBED_BY),
            final(self)@.role == old(self)@.role,
            final(self)@.actions == old(self)@.actions,
            final(self)@.flags == old(self)@.flags,
    {
        self.set_property(PROP_DESCRIBED_BY, PropertyValue::NodeIdVec(value));
    }

    pub fn clear_described_by(&mut self)
        requires
            old(self).wf(),
        ensures
            final(self).wf(),
            final(self)@.prop(PROP_DESCRIBED_BY) == PropertyView::Empty,
            final(self)@.same_props_except(old(self)@, PROP_DESCRIBED_BY),
            final(self)@.role == old(self)@.role,
            final(self)@.actions == old(self)@.actions,
            final(self)@.flags == old(self)@.flags,
    {
        self.clear_property(PROP_DESCRIBED_BY);
    }

    pub fn push_described_by(&mut self, item: NodeId)
        requires
            old(self).wf(),
        ensures
            final(self).wf(),
            node_id_vec_value(final(self)@.prop(PROP_DESCRIBED_BY)) == node_id_vec_value(old(self)@.prop(PROP_DESCRIBED_BY)).push(item),
            final(self)@.same_props_except(old(self)@, PROP_DESCRIBED_BY),
            final(self)@.role == old(self)@.role,
            final(self)@.actions == old(self)@.actions,
            final(self)@.flags == old(self)@.flags,
    {
        self.push_to_node_id_vec(PROP_DESCRIBED_BY, item);
    }

    pub fn flow_to(&self) -> (r: &[NodeId])
        requires
            self.wf(),
        ensures
            r@ == node_id_vec_value(self@.prop(PROP_FLOW_TO)),
    {
        get_node_id_vec_property(&self.class, &self.props, PROP_FLOW_TO)
    }

    pub fn set_flow_to(&mut self, value: Vec<NodeId>)
        requires
            old(self).wf(),
        ensures
            final(self).wf(),
            final(self)@.prop(PROP_FLOW_TO) == PropertyView::NodeIdVec(value@),
            final(self)@.same_props_except(old(self)@, PROP_FLOW_TO),
            final(self)@.role == old(self)@.role,
            final(self)@.actions == old(self)@.actions,
            final(self)@.flags == old(self)@.flags,
    {
        self.set_property(PROP_FLOW_TO, PropertyValue::NodeIdVec(value));
    }

    pub fn clear_flow_to(&mut self)
        requires
            old(self).wf(),
        ensures
            final(self).wf(),
            final(self)@.prop(PROP_FLOW_TO) == PropertyView::Empty,
            final(self)@.same_props_except(old(self)@, PROP_FLOW_TO),
            final(self)@.role == old(self)@.role,
            final(self)@.actions == old(self)@.actions,
            final(self)@.flags == old(self)@.flags,
    {
        self.clear_property(PROP_FLOW_TO);
    }

    pub fn push_flow_to(&mut self, item: NodeId)
        requires
            old(self).wf(),
        ensures
            final(self).wf(),
            node_id_vec_value(final(self)@.prop(PROP_FLOW_TO)) == node_id_vec_value(old(self)@.prop(PROP_FLOW_TO)).push(item),
            final(self)@.same_props_except(old(self)@, PROP_FLOW_TO),
            final(self)@.role == old(self)@.role,
            final(self)@.actions == old(self)@.actions,
            final(self)@.flags == old(self)@.flags,
    {
        self.push_to_node_id_vec(PROP_FLOW_TO, item);
    }

    pub fn labelled_by(&self) -> (r: &[NodeId])
        requires
            self.wf(),
        ensures
            r@ == node_id_vec_value(self@.prop(PROP_LABELLED_BY)),
    {
        get_node_id_vec_property(&self.class, &self.props, PROP_LABELLED_BY)
    }

    pub fn set_labelled_by(&mut self, value: Vec<NodeId>)
        requires
            old(self).wf(),
        ensures
            final(self).wf(),
            final(self)@.prop(PROP_LABELLED_BY) == PropertyView::NodeIdVec(value@),
            final(self)@.same_props_except(old(self)@, PROP_LABELLED_BY),
            final(self)@.role == old(self)@.role,
            final(self)@.actions == old(self)@.actions,
            final(self)@.flags == old(self)@.flags,
    {
        self.set_property(PROP_LABELLED_BY, PropertyValue::NodeIdVec(value));
    }

    pub fn clear_labelled_by(&mut self)
        requires
            old(self).wf(),
        ensures
            final(self).wf(),
            final(self)@.prop(PROP_LABELLED_BY) == PropertyView::Empty,
            final(self)@.same_props_except(old(self)@, PROP_LABELLED_BY),
            final(self)@.role == old(self)@.role,
            final(self)@.actions == old(self)@.actions,
            final(self)@.flags == old(self)@.flags,
    {
        self.clear_property(PROP_LABELLED_BY);
    }

    pub fn push_labelled_by(&mut self, item: NodeId)
        requires
            old(self).wf(),
        ensures
            final(self).wf(),
            node_id_vec_value(final(self)@.prop(PROP_LABELLED_BY)) == node_id_vec_value(old(self)@.prop(PROP_LABELLED_BY)).push(item),
            final(self)@.same_props_except(old(self)@, PROP_LABELLED_BY),
            final(self)@.role == old(self)@.role,
            final(self)@.actions == old(self)@.actions,
            final(self)@.flags == old(self)@.flags,
    {
        self.push_to_node_id_vec(PROP_LABELLED_BY, item);
    }

    pub fn radio_group(&self) -> (r: &[NodeId])
        requires
            self.wf(),
        ensures
            r@ == node_id_vec_value(self@.prop(PROP_RADIO_GROUP)),
    {
        get_node_id_vec_property(&self.class, &self.props, PROP_RADIO_GROUP)
    }

    pub fn set_radio_group(&mut self, value: Vec<NodeId>)
        requires
            old(self).wf(),
        ensures
            final(self).wf(),
            final(self)@.prop(PROP_RADIO_GROUP) == PropertyView::NodeIdVec(value@),
            final(self)@.same_props_except(old(self)@, PROP_RADIO_GROUP),
            final(self)@.role == old(self)@.role,
            final(self)@.actions == old(self)@.actions,
            final(self)@.flags == old(self)@.flags,
    {
        self.set_property(PROP_RADIO_GROUP, PropertyValue::NodeIdVec(value));
    }

    pub fn clear_radio_group(&mut self)
        requires
            old(self).wf(),
        ensures
            final(self).wf(),
            final(self)@.prop(PROP_RADIO_GROUP) == PropertyView::Empty,
            final(self)@.same_props_except(old(self)@, PROP_RADIO_GROUP),
            final(self)@.role == old(self)@.role,
            final(self)@.actions == old(self)@.actions,
            final(self)@.flags == old(self)@.flags,
    {
        self.clear_property(PROP_RADIO_GROUP);
    }

    pub fn push_to_radio_group(&mut self, item: NodeId)
        requires
            old(self).wf(),
        ensures
            final(self).wf(),
            node_id_vec_value(final(self)@.prop(PROP_RADIO_GROUP)) == node_id_vec_value(old(self)@.prop(PROP_RADIO_GROUP)).push(item),
            final(self)@.same_props_except(old(self)@, PROP_RADIO_GROUP),
            final(self)@.role == old(self)@.role,
            final(self)@.actions == old(self)@.actions,
            final(self)@.flags == old(self)@.flags,
    {
        self.push_to_node_id_vec(PROP_RADIO_GROUP, item);
    }

    pub fn active_descendant(&self) -> (r: Option<NodeId>)
        requires
            self.wf(),
        ensures
            r == node_id_value(self@.prop(PROP_ACTIVE_DESCENDANT)),
    {
        get_node_id_property(&self.class, &self.props, PROP_ACTIVE_DESCENDANT)
    }

    pub fn set_active_descendant(&mut self, value: NodeId)
        requires
            old(self).wf(),
        ensures
            final(self).wf(),
            final(self)@.prop(PROP_ACTIVE_DESCENDANT) == PropertyView::NodeId(value),
            final(self)@.same_props_except(old(self)@, PROP_ACTIVE_DESCENDANT),
            final(self)@.role == old(self)@.role,
            final(self)@.actions == old(self)@.actions,
            final(self)@.flags == old(self)@.flags,
    {
        self.set_property(PROP_ACTIVE_DESCENDANT, PropertyValue::NodeId(value));
    }

    pub fn clear_active_descendant(&mut self)
        requires
            old(self).wf(),
        ensures
            final(self).wf(),
            final(self)@.prop(PROP_ACTIVE_DESCENDANT) == PropertyView::Empty,
            final(self)@.same_props_except(old(self)@, PROP_ACTIVE_DESCENDANT),
            final(self)@.role == old(self)@.role,
            final(self)@.actions == old(self)@.actions,
            final(self)@.flags == old(self)@.flags,
    {
        self.clear_property(PROP_ACTIVE_DESCENDANT);
    }

    pub fn error_message(&self) -> (r: Option<NodeId>)
        requires
            self.wf(),
        ensures
            r == node_id_value(self@.prop(PROP_ERROR_MESSAGE)),
    {
        get_node_id_property(&self.class, &self.props, PROP_ERROR_MESSAGE)
    }

    pub fn set_error_message(&mut self, value: NodeId)
        requires
            old(self).wf(),
        ensures
            final(self).wf(),
            final(self)@.prop(PROP_ERROR_MESSAGE) == PropertyView::NodeId(value),
            final(self)@.same_props_except(old(self)@, PROP_ERROR_MESSAGE),
            final(self)@.role == old(self)@.role,
            final(self)@.actions == old(self)@.actions,
            final(self)@.flags == old(self)@.flags,
    {
        self.set_property(PROP_ERROR_MESSAGE, PropertyValue::NodeId(value));
    }

    pub fn clear_error_message(&mut self)
        requires
            old(self).wf(),
        ensures
            final(self).wf(),
            final(self)@.prop(PROP_ERROR_MESSAGE) == PropertyView::Empty,
            final(self)@.same_props_except(old(self)@, PROP_ERROR_MESSAGE),
            final(self)@.role == old(self)@.role,
            final(self)@.actions == old(self)@.actions,
            final(self)@.flags == old(self)@.flags,
    {
        self.clear_property(PROP_ERROR_MESSAGE);
    }

    pub fn in_page_link_target(&self) -> (r: Option<NodeId>)
        requires
            self.wf(),
        ensures
            r == node_id_value(self@.prop(PROP_IN_PAGE_LINK_TARGET)),
    {
        get_node_id_property(&self.class, &self.props, PROP_IN_PAGE_LINK_TARGET)
    }

    pub fn set_in_page_link_target(&mut self, value: NodeId)
        requires
            old(self).wf(),
        ensures
            final(self).wf(),
            final(self)@.prop(PROP_IN_PAGE_LINK_TARGET) == PropertyView::NodeId(value),
            final(self)@.same_props_except(old(self)@, PROP_IN_PAGE_LINK_TARGET),
            final(self)@.role == old(self)@.role,
            final(self)@.actions == old(self)@.actions,
            final(self)@.flags == old(self)@.flags,
    {
        self.set_property(PROP_IN_PAGE_LINK_TARGET, PropertyValue::NodeId(value));
    }

    pub fn clear_in_page_link_target(&mut self)
        requires
            old(self).wf(),
        ensures
            final(self).wf(),
            final(self)@.prop(PROP_IN_PAGE_LINK_TARGET) == PropertyView::Empty,
            final(self)@.same_props_except(old(self)@, PROP_IN_PAGE_LINK_TARGET),
            final(self)@.role == old(self)@.role,
            final(self)@.actions == old(self)@.actions,
            final(self)@.flags == old(self)@.flags,
    {
        self.clear_property(PROP_IN_PAGE_LINK_TARGET);
    }

    pub fn member_of(&self) -> (r: Option<NodeId>)
        requires
            self.wf(),
        ensures
            r == node_id_value(self@.prop(PROP_MEMBER_OF)),
    {
        get_node_id_property(&self.class, &self.props, PROP_MEMBER_OF)
    }

    pub fn set_member_of(&mut self, value: NodeId)
        requires
            old(self).wf(),
        ensures
            final(self).wf(),
            final(self)@.prop(PROP_MEMBER_OF) == PropertyView::NodeId(value),
            final(self)@.same_props_except(old(self)@, PROP_MEMBER_OF),
            final(self)@.role == old(self)@.role,
            final(self)@.actions == old(self)@.actions,
            final(self)@.flags == old(self)@.flags,
    {
        self.set_property(PROP_MEMBER_OF, PropertyValue::NodeId(value));
    }

    pub fn clear_member_of(&mut self)
        requires
            old(self).wf(),
        ensures
            final(self).wf(),
            final(self)@.prop(PROP_MEMBER_OF) == PropertyView::Empty,
            final(self)@.same_props_except(old(self)@, PROP_MEMBER_OF),
            final(self)@.role == old(self)@.role,
            final(self)@.actions == old(self)@.actions,
            final(self)@.flags == old(self)@.flags,
    {
        self.clear_property(PROP_MEMBER_OF);
    }

    pub fn next_on_line(&self) -> (r: Option<NodeId>)
        requires
            self.wf(),
        ensures
            r == node_id_value(self@.prop(PROP_NEXT_ON_LINE)),
    {
        get_node_id_property(&self.class, &self.props, PROP_NEXT_ON_LINE)
    }

    pub fn set_next_on_line(&mut self, value: NodeId)
        requires
            old(self).wf(),
        ensures
            final(self).wf(),
            final(self)@.prop(PROP_NEXT_ON_LINE) == PropertyView::NodeId(value),
            final(self)@.same_props_except(old(self)@, PROP_NEXT_ON_LINE),
            final(self)@.role == old(self)@.role,
            final(self)@.actions == old(self)@.actions,
            final(self)@.flags == old(self)@.flags,
    {
        self.set_property(PROP_NEXT_ON_LINE, PropertyValue::NodeId(value));
    }

    pub fn clear_next_on_line(&mut self)
        requires
            old(self).wf(),
        ensures
            final(self).wf(),
            final(self)@.prop(PROP_NEXT_ON_LINE) == PropertyView::Empty,
            final(self)@.same_props_except(old(self)@, PROP_NEXT_ON_LINE),
            final(self)@.role == old(self)@.role,
            final(self)@.actions == old(self)@.actions,
            final(self)@.flags == old(self)@.flags,
    {
        self.clear_property(PROP_NEXT_ON_LINE);
    }

    pub fn previous_on_line(&self) -> (r: Option<NodeId>)
        requires
            self.wf(),
        ensures
            r == node_id_value(self@.prop(PROP_PREVIOUS_ON_LINE)),
    {
        get_node_id_property(&self.class, &self.props, PROP_PREVIOUS_ON_LINE)
    }

    pub fn set_previous_on_line(&mut self, value: NodeId)
        requires
            old(self).wf(),
        ensures
            final(self).wf(),
            final(self)@.prop(PROP_PREVIOUS_ON_LINE) == PropertyView::NodeId(value),
            final(self)@.same_props_except(old(self)@, PROP_PREVIOUS_ON_LINE),
            final(self)@.role == old(self)@.role,
            final(self)@.actions == old(self)@.actions,
            final(self)@.flags == old(self)@.flags,
    {
        self.set_property(PROP_PREVIOUS_ON_LINE, PropertyValue::NodeId(value));
    }

    pub fn clear_previous_on_line(&mut self)
        requires
            old(self).wf(),
        ensures
            final(self).wf(),
            final(self)@.prop(PROP_PREVIOUS_ON_LINE) == PropertyView::Empty,
            final(self)@.same_props_except(old(self)@, PROP_PREVIOUS_ON_LINE),
            final(self)@.role == old(self)@.role,
            final(self)@.actions == old(self)@.actions,
            final(self)@.flags == old(self)@.flags,
    {
        self.clear_property(PROP_PREVIOUS_ON_LINE);
    }

    pub fn popup_for(&self) -> (r: Option<NodeId>)
        requires
            self.wf(),
        ensures
            r == node_id_value(self@.prop(PROP_POPUP_FOR)),
    {
        get_node_id_property(&self.class, &self.props, PROP_POPUP_FOR)
    }

    pub fn set_popup_for(&mut self, value: NodeId)
        requires
            old(self).wf(),
        ensures
            final(self).wf(),
            final(self)@.prop(PROP_POPUP_FOR) == PropertyView::NodeId(value),
            final(self)@.same_props_except(old(self)@, PROP_POPUP_FOR),
            final(self)@.role == old(self)@.role,
            final(self)@.actions == old(self)@.actions,
            final(self)@.flags == old(self)@.flags,
    {
        self.set_property(PROP_POPUP_FOR, PropertyValue::NodeId(value));
    }

    pub fn clear_popup_for(&mut self)
        requires
            old(self).wf(),
        ensures
            final(self).wf(),
            final(self)@.prop(PROP_POPUP_FOR) == PropertyView::Empty,
            final(self)@.same_props_except(old(self)@, PROP_POPUP_FOR),
            final(self)@.role == old(self)@.role,
            final(self)@.actions == old(self)@.actions,
            final(self)@.flags == old(self)@.flags,
    {
        self.clear_property(PROP_POPUP_FOR);
    }

    pub fn table_header(&self) -> (r: Option<NodeId>)
        requires
            self.wf(),
        ensures
            r == node_id_value(self@.prop(PROP_TABLE_HEADER)),
    {
        get_node_id_property(&self.class, &self.props, PROP_TABLE_HEADER)
    }

    pub fn set_table_header(&mut self, value: NodeId)
        requires
            old(self).wf(),
        ensures
            final(self).wf(),
            final(self)@.prop(PROP_TABLE_HEADER) == PropertyView::NodeId(value),
            final(self)@.same_props_except(old(self)@, PROP_TABLE_HEADER),
            final(self)@.role == old(self)@.role,
            final(self)@.actions == old(self)@.actions,
            final(self)@.flags == old(self)@.flags,
    {
        self.set_property(PROP_TABLE_HEADER, PropertyValue::NodeId(value));
    }

    pub fn clear_table_header(&mut self)
        requires
            old(self).wf(),
        ensures
            final(self).wf(),
            final(self)@.prop(PROP_TABLE_HEADER) == PropertyView::Empty,
            final(self)@.same_props_except(old(self)@, PROP_TABLE_HEADER),
            final(self)@.role == old(self)@.role,
            final(self)@.actions == old(self)@.actions,
            final(self)@.flags == old(self)@.flags,
    {
        self.clear_property(PROP_TABLE_HEADER);
    }

    pub fn table_row_header(&self) -> (r: Option<NodeId>)
        requires
            self.wf(),
        ensures
            r == node_id_value(self@.prop(PROP_TABLE_ROW_HEADER)),
    {
        get_node_id_property(&self.class, &self.props, PROP_TABLE_ROW_HEADER)
    }

    pub fn set_table_row_header(&mut self, value: NodeId)
        requires
            old(self).wf(),
        ensures
            final(self).wf(),
            final(self)@.prop(PROP_TABLE_ROW_HEADER) == PropertyView::NodeId(value),
            final(self)@.same_props_except(old(self)@, PROP_TABLE_ROW_HEADER),
            final(self)@.role == old(self)@.role,
            final(self)@.actions == old(self)@.actions,
            final(self)@.flags == old(self)@.flags,
    {
        self.set_property(PROP_TABLE_ROW_HEADER, PropertyValue::NodeId(value));
    }

    pub fn clear_table_row_header(&mut self)
        requires
            old(self).wf(),
        ensures
            final(self).wf(),
            final(self)@.prop(PROP_TABLE_ROW_HEADER) == PropertyView::Empty,
            final(self)@.same_props_except(old(self)@, PROP_TABLE_ROW_HEADER),
            final(self)@.role == old(self)@.role,
            final(self)@.actions == old(self)@.actions,
            final(self)@.flags == old(self)@.flags,
    {
        self.clear_property(PROP_TABLE_ROW_HEADER);
    }

    pub fn table_column_header(&self) -> (r: Option<NodeId>)
        requires
            self.wf(),
        ensures
            r == node_id_value(self@.prop(PROP_TABLE_COLUMN_HEADER)),
    {
        get_node_id_property(&self.class, &self.props, PROP_TABLE_COLUMN_HEADER)
    }

    pub fn set_table_column_header(&mut self, value: NodeId)
        requires
            old(self).wf(),
        ensures
            final(self).wf(),
            final(self)@.prop(PROP_TABLE_COLUMN_HEADER) == PropertyView::NodeId(value),
            final(self)@.same_props_except(old(self)@, PROP_TABLE_COLUMN_HEADER),
            final(self)@.role == old(self)@.role,
            final(self)@.actions == old(self)@.actions,
            final(self)@.flags == old(self)@.flags,
    {
        self.set_property(PROP_TABLE_COLUMN_HEADER, PropertyValue::NodeId(value));
    }

    pub fn clear_table_column_header(&mut self)
        requires
            old(self).wf(),
        ensures
            final(self).wf(),
            final(self)@.prop(PROP_TABLE_COLUMN_HEADER) == PropertyView::Empty,
            final(self)@.same_props_except(old(self)@, PROP_TABLE_COLUMN_HEADER),
            final(self)@.role == old(self)@.role,
            final(self)@.actions == old(self)@.actions,
            final(self)@.flags == old(self)@.flags,
    {
        self.clear_property(PROP_TABLE_COLUMN_HEADER);
    }

    pub fn name(&self) -> (r: Option<&str>)
        requires
            self.wf(),
        ensures
            opt_str_view(r) == string_value(self@.prop(PROP_NAME)),
    {
        get_string_property(&self.class, &self.props, PROP_NAME)
    }

    pub fn set_name(&mut self, value: String)
        requires
            old(self).wf(),
        ensures
            final(self).wf(),
            final(self)@.prop(PROP_NAME) == PropertyView::String(value@),
            final(self)@.same_props_except(old(self)@, PROP_NAME),
            final(self)@.role == old(self)@.role,
            final(self)@.actions == old(self)@.actions,
            final(self)@.flags == old(self)@.flags,
    {
        self.set_property(PROP_NAME, PropertyValue::String(value));
    }

    pub fn clear_name(&mut self)
        requires
            old(self).wf(),
        ensures
            final(self).wf(),
            final(self)@.prop(PROP_NAME) == PropertyView::Empty,
            final(self)@.same_props_except(old(self)@, PROP_NAME),
            final(self)@.role == old(self)@.role,
            final(self)@.actions == old(self)@.actions,
            final(self)@.flags == old(self)@.flags,
    {
        self.clear_property(PROP_NAME);
    }

    pub fn description(&self) -> (r: Option<&str>)
        requires
            self.wf(),
        ensures
            opt_str_view(r) == string_value(self@.prop(PROP_DESCRIPTION)),
    {
        get_string_property(&self.class, &self.props, PROP_DESCRIPTION)
    }

    pub fn set_description(&mut self, value: String)
        requires
            old(self).wf(),
        ensures
            final(self).wf(),
            final(self)@.prop(PROP_DESCRIPTION) == PropertyView::String(value@),
            final(self)@.same_props_except(old(self)@, PROP_DESCRIPTION),
            final(self)@.role == old(self)@.role,
            final(self)@.actions == old(self)@.actions,
            final(self)@.flags == old(self)@.flags,
    {
        self.set_property(PROP_DESCRIPTION, PropertyValue::String(value));
    }

    pub fn clear_description(&mut self)
        requires
            old(self).wf(),
        ensures
            final(self).wf(),
            final(self)@.prop(PROP_DESCRIPTION) == PropertyView::Empty,
            final(self)@.same_props_except(old(self)@, PROP_DESCRIPTION),
            final(self)@.role == old(self)@.role,
            final(self)@.actions == old(self)@.actions,
            final(self)@.flags == old(self)@.flags,
    {
        self.clear_property(PROP_DESCRIPTION);
    }

    pub fn value(&self) -> (r: Option<&str>)
        requires
            self.wf(),
        ensures
            opt_str_view(r) == string_value(self@.prop(PROP_VALUE)),
    {
        get_string_property(&self.class, &self.props, PROP_VALUE)
    }

    pub fn set_value(&mut self, value: String)
        requires
            old(self).wf(),
        ensures
            final(self).wf(),
            final(self)@.prop(PROP_VALUE) == PropertyView::String(value@),
            final(self)@.same_props_except(old(self)@, PROP_VALUE),
            final(self)@.role == old(self)@.role,
            final(self)@.actions == old(self)@.actions,
            final(self)@.flags == old(self)@.flags,
    {
        self.set_property(PROP_VALUE, PropertyValue::String(value));
    }

    pub fn clear_value(&mut self)
        requires
            old(self).wf(),
        ensures
            final(self).wf(),
            final(self)@.prop(PROP_VALUE) == PropertyView::Empty,
            final(self)@.same_props_except(old(self)@, PROP_VALUE),
            final(self)@.role == old(self)@.role,
            final(self)@.actions == old(self)@.actions,
            final(self)@.flags == old(self)@.flags,
    {
        self.clear_property(PROP_VALUE);
    }

    pub fn access_key(&self) -> (r: Option<&str>)
        requires
            self.wf(),
        ensures
            opt_str_view(r) == string_value(self@.prop(PROP_ACCESS_KEY)),
    {
        get_string_property(&self.class, &self.props, PROP_ACCESS_KEY)
    }

    pub fn set_access_key(&mut self, value: String)
        requires
            old(self).wf(),
        ensures
            final(self).wf(),
            final(self)@.prop(PROP_ACCESS_KEY) == PropertyView::String(value@),
            final(self)@.same_props_except(old(self)@, PROP_ACCESS_KEY),
            final(self)@.role == old(self)@.role,
            final(self)@.actions == old(self)@.actions,
            final(self)@.flags == old(self)@.flags,
    {
        self.set_property(PROP_ACCESS_KEY, PropertyValue::String(value));
    }

    pub fn clear_access_key(&mut self)
        requires
            old(self).wf(),
        ensures
            final(self).wf(),
            final(self)@.prop(PROP_ACCESS_KEY) == PropertyView::Empty,
            final(self)@.same_props_except(old(self)@, PROP_ACCESS_KEY),
            final(self)@.role == old(self)@.role,
            final(self)@.actions == old(self)@.actions,
            final(self)@.flags == old(self)@.flags,
    {
        self.clear_property(PROP_ACCESS_KEY);
    }

    pub fn class_name(&self) -> (r: Option<&str>)
        requires
            self.wf(),
        ensures
            opt_str_view(r) == string_value(self@.prop(PROP_CLASS_NAME)),
    {
        get_string_property(&self.class, &self.props, PROP_CLASS_NAME)
    }

    pub fn set_class_name(&mut self, value: String)
        requires
            old(self).wf(),
        ensures
            final(self).wf(),
            final(self)@.prop(PROP_CLASS_NAME) == PropertyView::String(value@),
            final(self)@.same_props_except(old(self)@, PROP_CLASS_NAME),
            final(self)@.role == old(self)@.role,
            final(self)@.actions == old(self)@.actions,
            final(self)@.flags == old(self)@.flags,
    {
        self.set_property(PROP_CLASS_NAME, PropertyValue::String(value));
    }

    pub fn clear_class_name(&mut self)
        requires
            old(self).wf(),
        ensures
            final(self).wf(),
            final(self)@.prop(PROP_CLASS_NAME) == PropertyView::Empty,
            final(self)@.same_props_except(old(self)@, PROP_CLASS_NAME),
            final(self)@.role == old(self)@.role,
            final(self)@.actions == old(self)@.actions,
            final(self)@.flags == old(self)@.flags,
    {
        self.clear_property(PROP_CLASS_NAME);
    }

    pub fn font_family(&self) -> (r: Option<&str>)
        requires
            self.wf(),
        ensures
            opt_str_view(r) == string_value(self@.prop(PROP_FONT_FAMILY)),
    {
        get_string_property(&self.class, &self.props, PROP_FONT_FAMILY)
    }

    pub fn set_font_family(&mut self, value: String)
        requires
            old(self).wf(),
        ensures
            final(self).wf(),
            final(self)@.prop(PROP_FONT_FAMILY) == PropertyView::String(value@),
            final(self)@.same_props_except(old(self)@, PROP_FONT_FAMILY),
            final(self)@.role == old(self)@.role,
            final(self)@.actions == old(self)@.actions,
            final(self)@.flags == old(self)@.flags,
    {
        self.set_property(PROP_FONT_FAMILY, PropertyValue::String(value));
    }

    pub fn clear_font_family(&mut self)
        requires
            old(self).wf(),
        ensures
            final(self).wf(),
            final(self)@.prop(PROP_FONT_FAMILY) == PropertyView::Empty,
            final(self)@.same_props_except(old(self)@, PROP_FONT_FAMILY),
            final(self)@.role == old(self)@.role,
            final(self)@.actions == old(self)@.actions,
            final(self)@.flags == old(self)@.flags,
    {
        self.clear_property(PROP_FONT_FAMILY);
    }

    pub fn html_tag(&self) -> (r: Option<&str>)
        requires
            self.wf(),
        ensures
            opt_str_view(r) == string_value(self@.prop(PROP_HTML_TAG)),
    {
        get_string_property(&self.class, &self.props, PROP_HTML_TAG)
    }

    pub fn set_html_tag(&mut self, value: String)
        requires
            old(self).wf(),
        ensures
            final(self).wf(),
            final(self)@.prop(PROP_HTML_TAG) == PropertyView::String(value@),
            final(self)@.same_props_except(old(self)@, PROP_HTML_TAG),
            final(self)@.role == old(self)@.role,
            final(self)@.actions == old(self)@.actions,
            final(self)@.flags == old(self)@.flags,
    {
        self.set_property(PROP_HTML_TAG, PropertyValue::String(value));
    }

    pub fn clear_html_tag(&mut self)
        requires
            old(self).wf(),
        ensures
            final(self).wf(),
            final(self)@.prop(PROP_HTML_TAG) == PropertyView::Empty,
            final(self)@.same_props_except(old(self)@, PROP_HTML_TAG),
            final(self)@.role == old(self)@.role,
            final(self)@.actions == old(self)@.actions,
            final(self)@.flags == old(self)@.flags,
    {
        self.clear_property(PROP_HTML_TAG);
    }

    pub fn inner_html(&self) -> (r: Option<&str>)
        requires
            self.wf(),
        ensures
            opt_str_view(r) == string_value(self@.prop(PROP_INNER_HTML)),
    {
        get_string_property(&self.class, &self.props, PROP_INNER_HTML)
    }

    pub fn set_inner_html(&mut self, value: String)
        requires
            old(self).wf(),
        ensures
            final(self).wf(),
            final(self)@.prop(PROP_INNER_HTML) == PropertyView::String(value@),
            final(self)@.same_props_except(old(self)@, PROP_INNER_HTML),
            final(self)@.role == old(self)@.role,
            final(self)@.actions == old(self)@.actions,
            final(self)@.flags == old(self)@.flags,
    {
        self.set_property(PROP_INNER_HTML, PropertyValue::String(value));
    }

    pub fn clear_inner_html(&mut self)
        requires
            old(self).wf(),
        ensures
            final(self).wf(),
            final(self)@.prop(PROP_INNER_HTML) == PropertyView::Empty,
            final(self)@.same_props_except(old(self)@, PROP_INNER_HTML),
            final(self)@.role == old(self)@.role,
            final(self)@.actions == old(self)@.actions,
            final(self)@.flags == old(self)@.flags,
    {
        self.clear_property(PROP_INNER_HTML);
    }

    pub fn keyboard_shortcut(&self) -> (r: Option<&str>)
        requires
            self.wf(),
        ensures
            opt_str_view(r) == string_value(self@.prop(PROP_KEYBOARD_SHORTCUT)),
    {
        get_string_property(&self.class, &self.props, PROP_KEYBOARD_SHORTCUT)
    }

    pub fn set_keyboard_shortcut(&mut self, value: String)
        requires
            old(self).wf(),
        ensures
            final(self).wf(),
            final(self)@.prop(PROP_KEYBOARD_SHORTCUT) == PropertyView::String(value@),
            final(self)@.same_props_except(old(self)@, PROP_KEYBOARD_SHORTCUT),
            final(self)@.role == old(self)@.role,
            final(self)@.actions == old(self)@.actions,
            final(self)@.flags == old(self)@.flags,
    {
        self.set_property(PROP_KEYBOARD_SHORTCUT, PropertyValue::String(value));
    }

    pub fn clear_keyboard_shortcut(&mut self)
        requires
            old(self).wf(),
        ensures
            final(self).wf(),
            final(self)@.prop(PROP_KEYBOARD_SHORTCUT) == PropertyView::Empty,
            final(self)@.same_props_except(old(self)@, PROP_KEYBOARD_SHORTCUT),
            final(self)@.role == old(self)@.role,
            final(self)@.actions == old(self)@.actions,
            final(self)@.flags == old(self)@.flags,
    {
        self.clear_property(PROP_KEYBOARD_SHORTCUT);
    }

    pub fn language(&self) -> (r: Option<&str>)
        requires
            self.wf(),
        ensures
            opt_str_view(r) == string_value(self@.prop(PROP_LANGUAGE)),
    {
        get_string_property(&self.class, &self.props, PROP_LANGUAGE)
    }

    pub fn set_language(&mut self, value: String)
        requires
            old(self).wf(),
        ensures
            final(self).wf(),
            final(self)@.prop(PROP_LANGUAGE) == PropertyView::String(value@),
            final(self)@.same_props_except(old(self)@, PROP_LANGUAGE),
            final(self)@.role == old(self)@.role,
            final(self)@.actions == old(self)@.actions,
            final(self)@.flags == old(self)@.flags,
    {
        self.set_property(PROP_LANGUAGE, PropertyValue::String(value));
    }

    pub fn clear_language(&mut self)
        requires
            old(self).wf(),
        ensures
            final(self).wf(),
            final(self)@.prop(PROP_LANGUAGE) == PropertyView::Empty,
            final(self)@.same_props_except(old(self)@, PROP_LANGUAGE),
            final(self)@.role == old(self)@.role,
            final(self)@.actions == old(self)@.actions,
            final(self)@.flags == old(self)@.flags,
    {
        self.clear_property(PROP_LANGUAGE);
    }

    pub fn placeholder(&self) -> (r: Option<&str>)
        requires
            self.wf(),
        ensures
            opt_str_view(r) == string_value(self@.prop(PROP_PLACEHOLDER)),
    {
        get_string_property(&self.class, &self.props, PROP_PLACEHOLDER)
    }

    pub fn set_placeholder(&mut self, value: String)
        requires
            old(self).wf(),
        ensures
            final(self).wf(),
            final(self)@.prop(PROP_PLACEHOLDER) == PropertyView::String(value@),
            final(self)@.same_props_except(old(self)@, PROP_PLACEHOLDER),
            final(self)@.role == old(self)@.role,
            final(self)@.actions == old(self)@.actions,
            final(self)@.flags == old(self)@.flags,
    {
        self.set_property(PROP_PLACEHOLDER, PropertyValue::String(value));
    }

    pub fn clear_placeholder(&mut self)
        requires
            old(self).wf(),
        ensures
            final(self).wf(),
            final(self)@.prop(PROP_PLACEHOLDER) == PropertyView::Empty,
            final(self)@.same_props_except(old(self)@, PROP_PLACEHOLDER),
            final(self)@.role == old(self)@.role,
            final(self)@.actions == old(self)@.actions,
            final(self)@.flags == old(self)@.flags,
    {
        self.clear_property(PROP_PLACEHOLDER);
    }

    pub fn role_description(&self) -> (r: Option<&str>)
        requires
            self.wf(),
        ensures
            opt_str_view(r) == string_value(self@.prop(PROP_ROLE_DESCRIPTION)),
    {
        get_string_property(&self.class, &self.props, PROP_ROLE_DESCRIPTION)
    }

    pub fn set_role_description(&mut self, value: String)
        requires
            old(self).wf(),
        ensures
            final(self).wf(),
            final(self)@.prop(PROP_ROLE_DESCRIPTION) == PropertyView::String(value@),
            final(self)@.same_props_except(old(self)@, PROP_ROLE_DESCRIPTION),
            final(self)@.role == old(self)@.role,
            final(self)@.actions == old(self)@.actions,
            final(self)@.flags == old(self)@.flags,
    {
        self.set_property(PROP_ROLE_DESCRIPTION, PropertyValue::String(value));
    }

    pub fn clear_role_description(&mut self)
        requires
            old(self).wf(),
        ensures
            final(self).wf(),
            final(self)@.prop(PROP_ROLE_DESCRIPTION) == PropertyView::Empty,
            final(self)@.same_props_except(old(self)@, PROP_ROLE_DESCRIPTION),
            final(self)@.role == old(self)@.role,
            final(self)@.actions == old(self)@.actions,
            final(self)@.flags == old(self)@.flags,
    {
        self.clear_property(PROP_ROLE_DESCRIPTION);
    }

    pub fn state_description(&self) -> (r: Option<&str>)
        requires
            self.wf(),
        ensures
            opt_str_view(r) == string_value(self@.prop(PROP_STATE_DESCRIPTION)),
    {
        get_string_property(&self.class, &self.props, PROP_STATE_DESCRIPTION)
    }

    pub fn set_state_description(&mut self, value: String)
        requires
            old(self).wf(),
        ensures
            final(self).wf(),
            final(self)@.prop(PROP_STATE_DESCRIPTION) == PropertyView::String(value@),
            final(self)@.same_props_except(old(self)@, PROP_STATE_DESCRIPTION),
            final(self)@.role == old(self)@.role,
            final(self)@.actions == old(self)@.actions,
            final(self)@.flags == old(self)@.flags,
    {
        self.set_property(PROP_STATE_DESCRIPTION, PropertyValue::String(value));
    }

    pub fn clear_state_description(&mut self)
        requires
            old(self).wf(),
        ensures
            final(self).wf(),
            final(self)@.prop(PROP_STATE_DESCRIPTION) == PropertyView::Empty,
            final(self)@.same_props_except(old(self)@, PROP_STATE_DESCRIPTION),
            final(self)@.role == old(self)@.role,
            final(self)@.actions == old(self)@.actions,
            final(self)@.flags == old(self)@.flags,
    {
        self.clear_property(PROP_STATE_DESCRIPTION);
    }

    pub fn tooltip(&self) -> (r: Option<&str>)
        requires
            self.wf(),
        ensures
            opt_str_view(r) == string_value(self@.prop(PROP_TOOLTIP)),
    {
        get_string_property(&self.class, &self.props, PROP_TOOLTIP)
    }

    pub fn set_tooltip(&mut self, value: String)
        requires
            old(self).wf(),
        ensures
            final(self).wf(),
            final(self)@.prop(PROP_TOOLTIP) == PropertyView::String(value@),
            final(self)@.same_props_except(old(self)@, PROP_TOOLTIP),
            final(self)@.role == old(self)@.role,
            final(self)@.actions == old(self)@.actions,
            final(self)@.flags == old(self)@.flags,
    {
        self.set_property(PROP_TOOLTIP, PropertyValue::String(value));
    }

    pub fn clear_tooltip(&mut self)
        requires
            old(self).wf(),
        ensures
            final(self).wf(),
            final(self)@.prop(PROP_TOOLTIP) == PropertyView::Empty,
            final(self)@.same_props_except(old(self)@, PROP_TOOLTIP),
            final(self)@.role == old(self)@.role,
            final(self)@.actions == old(self)@.actions,
            final(self)@.flags == old(self)@.flags,
    {
        self.clear_property(PROP_TOOLTIP);
    }

    pub fn url(&self) -> (r: Option<&str>)
        requires
            self.wf(),
        ensures
            opt_str_view(r) == string_value(self@.prop(PROP_URL)),
    {
        get_string_property(&self.class, &self.props, PROP_URL)
    }

    pub fn set_url(&mut self, value: String)
        requires
            old(self).wf(),
        ensures
            final(self).wf(),
            final(self)@.prop(PROP_URL) == PropertyView::String(value@),
            final(self)@.same_props_except(old(self)@, PROP_URL),
            final(self)@.role == old(self)@.role,
            final(self)@.actions == old(self)@.actions,
            final(self)@.flags == old(self)@.flags,
    {
        self.set_property(PROP_URL, PropertyValue::String(value));
    }

    pub fn clear_url(&mut self)
        requires
            old(self).wf(),
        ensures
            final(self).wf(),
            final(self)@.prop(PROP_URL) == PropertyView::Empty,
            final(self)@.same_props_except(old(self)@, PROP_URL),
            final(self)@.role == old(self)@.role,
            final(self)@.actions == old(self)@.actions,
            final(self)@.flags == old(self)@.flags,
    {
        self.clear_property(PROP_URL);
    }

    pub fn author_id(&self) -> (r: Option<&str>)
        requires
            self.wf(),
        ensures
            opt_str_view(r) == string_value(self@.prop(PROP_AUTHOR_ID)),
    {
        get_string_property(&self.class, &self.props, PROP_AUTHOR_ID)
    }

    pub fn set_author_id(&mut self, value: String)
        requires
            old(self).wf(),
        ensures
            final(self).wf(),
            final(self)@.prop(PROP_AUTHOR_ID) == PropertyView::String(value@),
            final(self)@.same_props_except(old(self)@, PROP_AUTHOR_ID),
            final(self)@.role == old(self)@.role,
            final(self)@.actions == old(self)@.actions,
            final(self)@.flags == old(self)@.flags,
    {
        self.set_property(PROP_AUTHOR_ID, PropertyValue::String(value));
    }

    pub fn clear_author_id(&mut self)
        requires
            old(self).wf(),
        ensures
            final(self).wf(),
            final(self)@.prop(PROP_AUTHOR_ID) == PropertyView::Empty,
            final(self)@.same_props_except(old(self)@, PROP_AUTHOR_ID),
            final(self)@.role == old(self)@.role,
            final(self)@.actions == old(self)@.actions,
            final(self)@.flags == old(self)@.flags,
    {
        self.clear_property(PROP_AUTHOR_ID);
    }

    pub fn table_row_count(&self) -> (r: Option<usize>)
        requires
            self.wf(),
        ensures
            r == usize_value(self@.prop(PROP_TABLE_ROW_COUNT)),
    {
        get_usize_property(&self.class, &self.props, PROP_TABLE_ROW_COUNT)
    }

    pub fn set_table_row_count(&mut self, value: usize)
        requires
            old(self).wf(),
        ensures
            final(self).wf(),
            final(self)@.prop(PROP_TABLE_ROW_COUNT) == PropertyView::Usize(value),
            final(self)@.same_props_except(old(self)@, PROP_TABLE_ROW_COUNT),
            final(self)@.role == old(self)@.role,
            final(self)@.actions == old(self)@.actions,
            final(self)@.flags == old(self)@.flags,
    {
        self.set_property(PROP_TABLE_ROW_COUNT, PropertyValue::Usize(value));
    }

    pub fn clear_table_row_count(&mut self)
        requires
            old(self).wf(),
        ensures
            final(self).wf(),
            final(self)@.prop(PROP_TABLE_ROW_COUNT) == PropertyView::Empty,
            final(self)@.same_props_except(old(self)@, PROP_TABLE_ROW_COUNT),
            final(self)@.role == old(self)@.role,
            final(self)@.actions == old(self)@.actions,
            final(self)@.flags == old(self)@.flags,
    {
        self.clear_property(PROP_TABLE_ROW_COUNT);
    }

    pub fn table_column_count(&self) -> (r: Option<usize>)
        requires
            self.wf(),
        ensures
            r == usize_value(self@.prop(PROP_TABLE_COLUMN_COUNT)),
    {
        get_usize_property(&self.class, &self.props, PROP_TABLE_COLUMN_COUNT)
    }

    pub fn set_table_column_count(&mut self, value: usize)
        requires
            old(self).wf(),
        ensures
            final(self).wf(),
            final(self)@.prop(PROP_TABLE_COLUMN_COUNT) == PropertyView::Usize(value),
            final(self)@.same_props_except(old(self)@, PROP_TABLE_COLUMN_COUNT),
            final(self)@.role == old(self)@.role,
            final(self)@.actions == old(self)@.actions,
            final(self)@.flags == old(self)@.flags,
    {
        self.set_property(PROP_TABLE_COLUMN_COUNT, PropertyValue::Usize(value));
    }

    pub fn clear_table_column_count(&mut self)
        requires
            old(self).wf(),
        ensures
            final(self).wf(),
            final(self)@.prop(PROP_TABLE_COLUMN_COUNT) == PropertyView::Empty,
            final(self)@.same_props_except(old(self)@, PROP_TABLE_COLUMN_COUNT),
            final(self)@.role == old(self)@.role,
            final(self)@.actions == old(self)@.actions,
            final(self)@.flags == old(self)@.flags,
    {
        self.clear_property(PROP_TABLE_COLUMN_COUNT);
    }

    pub fn table_row_index(&self) -> (r: Option<usize>)
        requires
            self.wf(),
        ensures
            r == usize_value(self@.prop(PROP_TABLE_ROW_INDEX)),
    {
        get_usize_property(&self.class, &self.props, PROP_TABLE_ROW_INDEX)
    }

    pub fn set_table_row_index(&mut self, value: usize)
        requires
            old(self).wf(),
        ensures
            final(self).wf(),
            final(self)@.prop(PROP_TABLE_ROW_INDEX) == PropertyView::Usize(value),
            final(self)@.same_props_except(old(self)@, PROP_TABLE_ROW_INDEX),
            final(self)@.role == old(self)@.role,
            final(self)@.actions == old(self)@.actions,
            final(self)@.flags == old(self)@.flags,
    {
        self.set_property(PROP_TABLE_ROW_INDEX, PropertyValue::Usize(value));
    }

    pub fn clear_table_row_index(&mut self)
        requires
            old(self).wf(),
        ensures
            final(self).wf(),
            final(self)@.prop(PROP_TABLE_ROW_INDEX) == PropertyView::Empty,
            final(self)@.same_props_except(old(self)@, PROP_TABLE_ROW_INDEX),
            final(self)@.role == old(self)@.role,
            final(self)@.actions == old(self)@.actions,
            final(self)@.flags == old(self)@.flags,
    {
        self.clear_property(PROP_TABLE_ROW_INDEX);
    }

    pub fn table_column_index(&self) -> (r: Option<usize>)
        requires
            self.wf(),
        ensures
            r == usize_value(self@.prop(PROP_TABLE_COLUMN_INDEX)),
    {
        get_usize_property(&self.class, &self.props, PROP_TABLE_COLUMN_INDEX)
    }

    pub fn set_table_column_index(&mut self, value: usize)
        requires
            old(self).wf(),
        ensures
            final(self).wf(),
            final(self)@.prop(PROP_TABLE_COLUMN_INDEX) == PropertyView::Usize(value),
            final(self)@.same_props_except(old(self)@, PROP_TABLE_COLUMN_INDEX),
            final(self)@.role == old(self)@.role,
            final(self)@.actions == old(self)@.actions,
            final(self)@.flags == old(self)@.flags,
    {
        self.set_property(PROP_TABLE_COLUMN_INDEX, PropertyValue::Usize(value));
    }

    pub fn clear_table_column_index(&mut self)
        requires
            old(self).wf(),
        ensures
            final(self).wf(),
            final(self)@.prop(PROP_TABLE_COLUMN_INDEX) == PropertyView::Empty,
            final(self)@.same_props_except(old(self)@, PROP_TABLE_COLUMN_INDEX),
            final(self)@.role == old(self)@.role,
            final(self)@.actions == old(self)@.actions,
            final(self)@.flags == old(self)@.flags,
    {
        self.clear_property(PROP_TABLE_COLUMN_INDEX);
    }

    pub fn table_cell_column_index(&self) -> (r: Option<usize>)
        requires
            self.wf(),
        ensures
            r == usize_value(self@.prop(PROP_TABLE_CELL_COLUMN_INDEX)),
    {
        get_usize_property(&self.class, &self.props, PROP_TABLE_CELL_COLUMN_INDEX)
    }

    pub fn set_table_cell_column_index(&mut self, value: usize)
        requires
            old(self).wf(),
        ensures
            final(self).wf(),
            final(self)@.prop(PROP_TABLE_CELL_COLUMN_INDEX) == PropertyView::Usize(value),
            final(self)@.same_props_except(old(self)@, PROP_TABLE_CELL_COLUMN_INDEX),
            final(self)@.role == old(self)@.role,
            final(self)@.actions == old(self)@.actions,
            final(self)@.flags == old(self)@.flags,
    {
        self.set_property(PROP_TABLE_CELL_COLUMN_INDEX, PropertyValue::Usize(value));
    }

    pub fn clear_table_cell_column_index(&mut self)
        requires
            old(self).wf(),
        ensures
            final(self).wf(),
            final(self)@.prop(PROP_TABLE_CELL_COLUMN_INDEX) == PropertyView::Empty,
            final(self)@.same_props_except(old(self)@, PROP_TABLE_CELL_COLUMN_INDEX),
            final(self)@.role == old(self)@.role,
            final(self)@.actions == old(self)@.actions,
            final(self)@.flags == old(self)@.flags,
    {
        self.clear_property(PROP_TABLE_CELL_COLUMN_INDEX);
    }

    pub fn table_cell_column_span(&self) -> (r: Option<usize>)
        requires
            self.wf(),
        ensures
            r == usize_value(self@.prop(PROP_TABLE_CELL_COLUMN_SPAN)),
    {
        get_usize_property(&self.class, &self.props, PROP_TABLE_CELL_COLUMN_SPAN)
    }

    pub fn set_table_cell_column_span(&mut self, value: usize)
        requires
            old(self).wf(),
        ensures
            final(self).wf(),
            final(self)@.prop(PROP_TABLE_CELL_COLUMN_SPAN) == PropertyView::Usize(value),
            final(self)@.same_props_except(old(self)@, PROP_TABLE_CELL_COLUMN_SPAN),
            final(self)@.role == old(self)@.role,
            final(self)@.actions == old(self)@.actions,
            final(self)@.flags == old(self)@.flags,
    {
        self.set_property(PROP_TABLE_CELL_COLUMN_SPAN, PropertyValue::Usize(value));
    }

    pub fn clear_table_cell_column_span(&mut self)
        requires
            old(self).wf(),
        ensures
            final(self).wf(),
            final(self)@.prop(PROP_TABLE_CELL_COLUMN_SPAN) == PropertyView::Empty,
            final(self)@.same_props_except(old(self)@, PROP_TABLE_CELL_COLUMN_SPAN),
            final(self)@.role == old(self)@.role,
            final(self)@.actions == old(self)@.actions,
            final(self)@.flags == old(self)@.flags,
    {
        self.clear_property(PROP_TABLE_CELL_COLUMN_SPAN);
    }

    pub fn table_cell_row_index(&self) -> (r: Option<usize>)
        requires
            self.wf(),
        ensures
            r == usize_value(self@.prop(PROP_TABLE_CELL_ROW_INDEX)),
    {
        get_usize_property(&self.class, &self.props, PROP_TABLE_CELL_ROW_INDEX)
    }

    pub fn set_table_cell_row_index(&mut self, value: usize)
        requires
            old(self).wf(),
        ensures
            final(self).wf(),
            final(self)@.prop(PROP_TABLE_CELL_ROW_INDEX) == PropertyView::Usize(value),
            final(self)@.same_props_except(old(self)@, PROP_TABLE_CELL_ROW_INDEX),
            final(self)@.role == old(self)@.role,
            final(self)@.actions == old(self)@.actions,
            final(self)@.flags == old(self)@.flags,
    {
        self.set_property(PROP_TABLE_CELL_ROW_INDEX, PropertyValue::Usize(value));
    }

    pub fn clear_table_cell_row_index(&mut self)
        requires
            old(self).wf(),
        ensures
            final(self).wf(),
            final(self)@.prop(PROP_TABLE_CELL_ROW_INDEX) == PropertyView::Empty,
            final(self)@.same_props_except(old(self)@, PROP_TABLE_CELL_ROW_INDEX),
            final(self)@.role == old(self)@.role,
            final(self)@.actions == old(self)@.actions,
            final(self)@.flags == old(self)@.flags,
    {
        self.clear_property(PROP_TABLE_CELL_ROW_INDEX);
    }

    pub fn table_cell_row_span(&self) -> (r: Option<usize>)
        requires
            self.wf(),
        ensures
            r == usize_value(self@.prop(PROP_TABLE_CELL_ROW_SPAN)),
    {
        get_usize_property(&self.class, &self.props, PROP_TABLE_CELL_ROW_SPAN)
    }

    pub fn set_table_cell_row_span(&mut self, value: usize)
        requires
            old(self).wf(),
        ensures
            final(self).wf(),
            final(self)@.prop(PROP_TABLE_CELL_ROW_SPAN) == PropertyView::Usize(value),
            final(self)@.same_props_except(old(self)@, PROP_TABLE_CELL_ROW_SPAN),
            final(self)@.role == old(self)@.role,
            final(self)@.actions == old(self)@.actions,
            final(self)@.flags == old(self)@.flags,
    {
        self.set_property(PROP_TABLE_CELL_ROW_SPAN, PropertyValue::Usize(value));
    }

    pub fn clear_table_cell_row_span(&mut self)
        requires
            old(self).wf(),
        ensures
            final(self).wf(),
            final(self)@.prop(PROP_TABLE_CELL_ROW_SPAN) == PropertyView::Empty,
            final(self)@.same_props_except(old(self)@, PROP_TABLE_CELL_ROW_SPAN),
            final(self)@.role == old(self)@.role,
            final(self)@.actions == old(self)@.actions,
            final(self)@.flags == old(self)@.flags,
    {
        self.clear_property(PROP_TABLE_CELL_ROW_SPAN);
    }

    pub fn hierarchical_level(&self) -> (r: Option<usize>)
        requires
            self.wf(),
        ensures
            r == usize_value(self@.prop(PROP_HIERARCHICAL_LEVEL)),
    {
        get_usize_property(&self.class, &self.props, PROP_HIERARCHICAL_LEVEL)
    }

    pub fn set_hierarchical_level(&mut self, value: usize)
        requires
            old(self).wf(),
        ensures
            final(self).wf(),
            final(self)@.prop(PROP_HIERARCHICAL_LEVEL) == PropertyView::Usize(value),
            final(self)@.same_props_except(old(self)@, PROP_HIERARCHICAL_LEVEL),
            final(self)@.role == old(self)@.role,
            final(self)@.actions == old(self)@.actions,
            final(self)@.flags == old(self)@.flags,
    {
        self.set_property(PROP_HIERARCHICAL_LEVEL, PropertyValue::Usize(value));
    }

    pub fn clear_hierarchical_level(&mut self)
        requires
            old(self).wf(),
        ensures
            final(self).wf(),
            final(self)@.prop(PROP_HIERARCHICAL_LEVEL) == PropertyView::Empty,
            final(self)@.same_props_except(old(self)@, PROP_HIERARCHICAL_LEVEL),
            final(self)@.role == old(self)@.role,
            final(self)@.actions == old(self)@.actions,
            final(self)@.flags == old(self)@.flags,
    {
        self.clear_property(PROP_HIERARCHICAL_LEVEL);
    }

    pub fn size_of_set(&self) -> (r: Option<usize>)
        requires
            self.wf(),
        ensures
            r == usize_value(self@.prop(PROP_SIZE_OF_SET)),
    {
        get_usize_property(&self.class, &self.props, PROP_SIZE_OF_SET)
    }

    pub fn set_size_of_set(&mut self, value: usize)
        requires
            old(self).wf(),
        ensures
            final(self).wf(),
            final(self)@.prop(PROP_SIZE_OF_SET) == PropertyView::Usize(value),
            final(self)@.same_props_except(old(self)@, PROP_SIZE_OF_SET),
            final(self)@.role == old(self)@.role,
            final(self)@.actions == old(self)@.actions,
            final(self)@.flags == old(self)@.flags,
    {
        self.set_property(PROP_SIZE_OF_SET, PropertyValue::Usize(value));
    }

    pub fn clear_size_of_set(&mut self)
        requires
            old(self).wf(),
        ensures
            final(self).wf(),
            final(self)@.prop(PROP_SIZE_OF_SET) == PropertyView::Empty,
            final(self)@.same_props_except(old(self)@, PROP_SIZE_OF_SET),
            final(self)@.role == old(self)@.role,
            final(self)@.actions == old(self)@.actions,
            final(self)@.flags == old(self)@.flags,
    {
        self.clear_property(PROP_SIZE_OF_SET);
    }

    pub fn position_in_set(&self) -> (r: Option<usize>)
        requires
            self.wf(),
        ensures
            r == usize_value(self@.prop(PROP_POSITION_IN_SET)),
    {
        get_usize_property(&self.class, &self.props, PROP_POSITION_IN_SET)
    }

    pub fn set_position_in_set(&mut self, value: usize)
        requires
            old(self).wf(),
        ensures
            final(self).wf(),
            final(self)@.prop(PROP_POSITION_IN_SET) == PropertyView::Usize(value),
            final(self)@.same_props_except(old(self)@, PROP_POSITION_IN_SET),
            final(self)@.role == old(self)@.role,
            final(self)@.actions == old(self)@.actions,
            final(self)@.flags == old(self)@.flags,
    {
        self.set_property(PROP_POSITION_IN_SET, PropertyValue::Usize(value));
    }

    pub fn clear_position_in_set(&mut self)
        requires
            old(self).wf(),
        ensures
            final(self).wf(),
            final(self)@.prop(PROP_POSITION_IN_SET) == PropertyView::Empty,
            final(self)@.same_props_except(old(self)@, PROP_POSITION_IN_SET),
            final(self)@.role == old(self)@.role,
            final(self)@.actions == old(self)@.actions,
            final(self)@.flags == old(self)@.flags,
    {
        self.clear_property(PROP_POSITION_IN_SET);
    }

    pub fn color_value(&self) -> (r: Option<u32>)
        requires
            self.wf(),
        ensures
            r == color_value(self@.prop(PROP_COLOR_VALUE)),
    {
        get_color_property(&self.class, &self.props, PROP_COLOR_VALUE)
    }

    pub fn set_color_value(&mut self, value: u32)
        requires
            old(self).wf(),
        ensures
            final(self).wf(),
            final(self)@.prop(PROP_COLOR_VALUE) == PropertyView::Color(value),
            final(self)@.same_props_except(old(self)@, PROP_COLOR_VALUE),
            final(self)@.role == old(self)@.role,
            final(self)@.actions == old(self)@.actions,
            final(self)@.flags == old(self)@.flags,
    {
        self.set_property(PROP_COLOR_VALUE, PropertyValue::Color(value));
    }

    pub fn clear_color_value(&mut self)
        requires
            old(self).wf(),
        ensures
            final(self).wf(),
            final(self)@.prop(PROP_COLOR_VALUE) == PropertyView::Empty,
            final(self)@.same_props_except(old(self)@, PROP_COLOR_VALUE),
            final(self)@.role == old(self)@.role,
            final(self)@.actions == old(self)@.actions,
            final(self)@.flags == old(self)@.flags,
    {
        self.clear_property(PROP_COLOR_VALUE);
    }

    pub fn background_color(&self) -> (r: Option<u32>)
        requires
            self.wf(),
        ensures
            r == color_value(self@.prop(PROP_BACKGROUND_COLOR)),
    {
        get_color_property(&self.class, &self.props, PROP_BACKGROUND_COLOR)
    }

    pub fn set_background_color(&mut self, value: u32)
        requires
            old(self).wf(),
        ensures
            final(self).wf(),
            final(self)@.prop(PROP_BACKGROUND_COLOR) == PropertyView::Color(value),
            final(self)@.same_props_except(old(self)@, PROP_BACKGROUND_COLOR),
            final(self)@.role == old(self)@.role,
            final(self)@.actions == old(self)@.actions,
            final(self)@.flags == old(self)@.flags,
    {
        self.set_property(PROP_BACKGROUND_COLOR, PropertyValue::Color(value));
    }

    pub fn clear_background_color(&mut self)
        requires
            old(self).wf(),
        ensures
            final(self).wf(),
            final(self)@.prop(PROP_BACKGROUND_COLOR) == PropertyView::Empty,
            final(self)@.same_props_except(old(self)@, PROP_BACKGROUND_COLOR),
            final(self)@.role == old(self)@.role,
            final(self)@.actions == old(self)@.actions,
            final(self)@.flags == old(self)@.flags,
    {
        self.clear_property(PROP_BACKGROUND_COLOR);
    }

    pub fn foreground_color(&self) -> (r: Option<u32>)
        requires
            self.wf(),
        ensures
            r == color_value(self@.prop(PROP_FOREGROUND_COLOR)),
    {
        get_color_property(&self.class, &self.props, PROP_FOREGROUND_COLOR)
    }

    pub fn set_foreground_color(&mut self, value: u32)
        requires
            old(self).wf(),
        ensures
            final(self).wf(),
            final(self)@.prop(PROP_FOREGROUND_COLOR) == PropertyView::Color(value),
            final(self)@.same_props_except(old(self)@, PROP_FOREGROUND_COLOR),
            final(self)@.role == old(self)@.role,
            final(self)@.actions == old(self)@.actions,
            final(self)@.flags == old(self)@.flags,
    {
        self.set_property(PROP_FOREGROUND_COLOR, PropertyValue::Color(value));
    }

    pub fn clear_foreground_color(&mut self)
        requires
            old(self).wf(),
        ensures
            final(self).wf(),
            final(self)@.prop(PROP_FOREGROUND_COLOR) == PropertyView::Empty,
            final(self)@.same_props_except(old(self)@, PROP_FOREGROUND_COLOR),
            final(self)@.role == old(self)@.role,
            final(self)@.actions == old(self)@.actions,
            final(self)@.flags == old(self)@.flags,
    {
        self.clear_property(PROP_FOREGROUND_COLOR);
    }

    pub fn overline(&self) -> (r: Option<TextDecoration>)
        requires
            self.wf(),
        ensures
            r == text_decoration_value(self@.prop(PROP_OVERLINE)),
    {
        get_text_decoration_property(&self.class, &self.props, PROP_OVERLINE)
    }

    pub fn set_overline(&mut self, value: TextDecoration)
        requires
            old(self).wf(),
        ensures
            final(self).wf(),
            final(self)@.prop(PROP_OVERLINE) == PropertyView::TextDecoration(value),
            final(self)@.same_props_except(old(self)@, PROP_OVERLINE),
            final(self)@.role == old(self)@.role,
            final(self)@.actions == old(self)@.actions,
            final(self)@.flags == old(self)@.flags,
    {
        self.set_property(PROP_OVERLINE, PropertyValue::TextDecoration(value));
    }

    pub fn clear_overline(&mut self)
        requires
            old(self).wf(),
        ensures
            final(self).wf(),
            final(self)@.prop(PROP_OVERLINE) == PropertyView::Empty,
            final(self)@.same_props_except(old(self)@, PROP_OVERLINE),
            final(self)@.role == old(self)@.role,
            final(self)@.actions == old(self)@.actions,
            final(self)@.flags == old(self)@.flags,
    {
        self.clear_property(PROP_OVERLINE);
    }

    pub fn strikethrough(&self) -> (r: Option<TextDecoration>)
        requires
            self.wf(),
        ensures
            r == text_decoration_value(self@.prop(PROP_STRIKETHROUGH)),
    {
        get_text_decoration_property(&self.class, &self.props, PROP_STRIKETHROUGH)
    }

    pub fn set_strikethrough(&mut self, value: TextDecoration)
        requires
            old(self).wf(),
        ensures
            final(self).wf(),
            final(self)@.prop(PROP_STRIKETHROUGH) == PropertyView::TextDecoration(value),
            final(self)@.same_props_except(old(self)@, PROP_STRIKETHROUGH),
            final(self)@.role == old(self)@.role,
            final(self)@.actions == old(self)@.actions,
            final(self)@.flags == old(self)@.flags,
    {
        self.set_property(PROP_STRIKETHROUGH, PropertyValue::TextDecoration(value));
    }

    pub fn clear_strikethrough(&mut self)
        requires
            old(self).wf(),
        ensures
            final(self).wf(),
            final(self)@.prop(PROP_STRIKETHROUGH) == PropertyView::Empty,
            final(self)@.same_props_except(old(self)@, PROP_STRIKETHROUGH),
            final(self)@.role == old(self)@.role,
            final(self)@.actions == old(self)@.actions,
            final(self)@.flags == old(self)@.flags,
    {
        self.clear_property(PROP_STRIKETHROUGH);
    }

    pub fn underline(&self) -> (r: Option<TextDecoration>)
        requires
            self.wf(),
        ensures
            r == text_decoration_value(self@.prop(PROP_UNDERLINE)),
    {
        get_text_decoration_property(&self.class, &self.props, PROP_UNDERLINE)
    }

    pub fn set_underline(&mut self, value: TextDecoration)
        requires
            old(self).wf(),
        ensures
            final(self).wf(),
            final(self)@.prop(PROP_UNDERLINE) == PropertyView::TextDecoration(value),
            final(self)@.same_props_except(old(self)@, PROP_UNDERLINE),
            final(self)@.role == old(self)@.role,
            final(self)@.actions == old(self)@.actions,
            final(self)@.flags == old(self)@.flags,
    {
        self.set_property(PROP_UNDERLINE, PropertyValue::TextDecoration(value));
    }

    pub fn clear_underline(&mut self)
        requires
            old(self).wf(),
        ensures
            final(self).wf(),
            final(self)@.prop(PROP_UNDERLINE) == PropertyView::Empty,
            final(self)@.same_props_except(old(self)@, PROP_UNDERLINE),
            final(self)@.role == old(self)@.role,
            final(self)@.actions == old(self)@.actions,
            final(self)@.flags == old(self)@.flags,
    {
        self.clear_property(PROP_UNDERLINE);
    }

    pub fn character_lengths(&self) -> (r: &[u8])
        requires
            self.wf(),
        ensures
            r@ == length_slice_value(self@.prop(PROP_CHARACTER_LENGTHS)),
    {
        get_length_slice_property(&self.class, &self.props, PROP_CHARACTER_LENGTHS)
    }

    pub fn set_character_lengths(&mut self, value: Vec<u8>)
        requires
            old(self).wf(),
        ensures
            final(self).wf(),
            final(self)@.prop(PROP_CHARACTER_LENGTHS) == PropertyView::LengthSlice(value@),
            final(self)@.same_props_except(old(self)@, PROP_CHARACTER_LENGTHS),
            final(self)@.role == old(self)@.role,
            final(self)@.actions == old(self)@.actions,
            final(self)@.flags == old(self)@.flags,
    {
        self.set_property(PROP_CHARACTER_LENGTHS, PropertyValue::LengthSlice(value));
    }

    pub fn clear_character_lengths(&mut self)
        requires
            old(self).wf(),
        ensures
            final(self).wf(),
            final(self)@.prop(PROP_CHARACTER_LENGTHS) == PropertyView::Empty,
            final(self)@.same_props_except(old(self)@, PROP_CHARACTER_LENGTHS),
            final(self)@.role == old(self)@.role,
            final(self)@.actions == old(self)@.actions,
            final(self)@.flags == old(self)@.flags,
    {
        self.clear_property(PROP_CHARACTER_LENGTHS);
    }

    pub fn word_lengths(&self) -> (r: &[u8])
        requires
            self.wf(),
        ensures
            r@ == length_slice_value(self@.prop(PROP_WORD_LENGTHS)),
    {
        get_length_slice_property(&self.class, &self.props, PROP_WORD_LENGTHS)
    }

    pub fn set_word_lengths(&mut self, value: Vec<u8>)
        requires
            old(self).wf(),
        ensures
            final(self).wf(),
            final(self)@.prop(PROP_WORD_LENGTHS) == PropertyView::LengthSlice(value@),
            final(self)@.same_props_except(old(self)@, PROP_WORD_LENGTHS),
            final(self)@.role == old(self)@.role,
            final(self)@.actions == old(self)@.actions,
            final(self)@.flags == old(self)@.flags,
    {
        self.set_property(PROP_WORD_LENGTHS, PropertyValue::LengthSlice(value));
    }

    pub fn clear_word_lengths(&mut self)
        requires
            old(self).wf(),
        ensures
            final(self).wf(),
            final(self)@.prop(PROP_WORD_LENGTHS) == PropertyView::Empty,
            final(self)@.same_props_except(old(self)@, PROP_WORD_LENGTHS),
            final(self)@.role == old(self)@.role,
            final(self)@.actions == old(self)@.actions,
            final(self)@.flags == old(self)@.flags,
    {
        self.clear_property(PROP_WORD_LENGTHS);
    }

    pub fn is_expanded(&self) -> (r: Option<bool>)
        requires
            self.wf(),
        ensures
            r == bool_value(self@.prop(PROP_EXPANDED)),
    {
        get_bool_property(&self.class, &self.props, PROP_EXPANDED)
    }

    pub fn set_expanded(&mut self, value: bool)
        requires
            old(self).wf(),
        ensures
            final(self).wf(),
            final(self)@.prop(PROP_EXPANDED) == PropertyView::Bool(value),
            final(self)@.same_props_except(old(self)@, PROP_EXPANDED),
            final(self)@.role == old(self)@.role,
            final(self)@.actions == old(self)@.actions,
            final(self)@.flags == old(self)@.flags,
    {
        self.set_property(PROP_EXPANDED, PropertyValue::Bool(value));
    }

    pub fn clear_expanded(&mut self)
        requires
            old(self).wf(),
        ensures
            final(self).wf(),
            final(self)@.prop(PROP_EXPANDED) == PropertyView::Empty,
            final(self)@.same_props_except(old(self)@, PROP_EXPANDED),
            final(self)@.role == old(self)@.role,
            final(self)@.actions == old(self)@.actions,
            final(self)@.flags == old(self)@.flags,
    {
        self.clear_property(PROP_EXPANDED);
    }

    pub fn is_selected(&self) -> (r: Option<bool>)
        requires
            self.wf(),
        ensures
            r == bool_value(self@.prop(PROP_SELECTED)),
    {
        get_bool_property(&self.class, &self.props, PROP_SELECTED)
    }

    pub fn set_selected(&mut self, value: bool)
        requires
            old(self).wf(),
        ensures
            final(self).wf(),
            final(self)@.prop(PROP_SELECTED) == PropertyView::Bool(value),
            final(self)@.same_props_except(old(self)@, PROP_SELECTED),
            final(self)@.role == old(self)@.role,
            final(self)@.actions == old(self)@.actions,
            final(self)@.flags == old(self)@.flags,
    {
        self.set_property(PROP_SELECTED, PropertyValue::Bool(value));
    }

    pub fn clear_selected(&mut self)
        requires
            old(self).wf(),
        ensures
            final(self).wf(),
            final(self)@.prop(PROP_SELECTED) == PropertyView::Empty,
            final(self)@.same_props_except(old(self)@, PROP_SELECTED),
            final(self)@.role == old(self)@.role,
            final(self)@.actions == old(self)@.actions,
            final(self)@.flags == old(self)@.flags,
    {
        self.clear_property(PROP_SELECTED);
    }

    pub fn invalid(&self) -> (r: Option<Invalid>)
        requires
            self.wf(),
        ensures
            r == invalid_value(self@.prop(PROP_INVALID)),
    {
        get_invalid_property(&self.class, &self.props, PROP_INVALID)
    }

    pub fn set_invalid(&mut self, value: Invalid)
        requires
            old(self).wf(),
        ensures
            final(self).wf(),
            final(self)@.prop(PROP_INVALID) == PropertyView::Invalid(value),
            final(self)@.same_props_except(old(self)@, PROP_INVALID),
            final(self)@.role == old(self)@.role,
            final(self)@.actions == old(self)@.actions,
            final(self)@.flags == old(self)@.flags,
    {
        self.set_property(PROP_INVALID, PropertyValue::Invalid(value));
    }

    pub fn clear_invalid(&mut self)
        requires
            old(self).wf(),
        ensures
            final(self).wf(),
            final(self)@.prop(PROP_INVALID) == PropertyView::Empty,
            final(self)@.same_props_except(old(self)@, PROP_INVALID),
            final(self)@.role == old(self)@.role,
            final(self)@.actions == old(self)@.actions,
            final(self)@.flags == old(self)@.flags,
    {
        self.clear_property(PROP_INVALID);
    }

    pub fn checked(&self) -> (r: Option<Checked>)
        requires
            self.wf(),
        ensures
            r == checked_value(self@.prop(PROP_CHECKED)),
    {
        get_checked_property(&self.class, &self.props, PROP_CHECKED)
    }

    pub fn set_checked(&mut self, value: Checked)
        requires
            old(self).wf(),
        ensures
            final(self).wf(),
            final(self)@.prop(PROP_CHECKED) == PropertyView::Checked(value),
            final(self)@.same_props_except(old(self)@, PROP_CHECKED),
            final(self)@.role == old(self)@.role,
            final(self)@.actions == old(self)@.actions,
            final(self)@.flags == old(self)@.flags,
    {
        self.set_property(PROP_CHECKED, PropertyValue::Checked(value));
    }

    pub fn clear_checked(&mut self)
        requires
            old(self).wf(),
        ensures
            final(self).wf(),
            final(self)@.prop(PROP_CHECKED) == PropertyView::Empty,
            final(self)@.same_props_except(old(self)@, PROP_CHECKED),
            final(self)@.role == old(self)@.role,
            final(self)@.actions == old(self)@.actions,
            final(self)@.flags == old(self)@.flags,
    {
        self.clear_property(PROP_CHECKED);
    }

    pub fn live(&self) -> (r: Option<Live>)
        requires
            self.wf(),
        ensures
            r == live_value(self@.prop(PROP_LIVE)),
    {
        get_live_property(&self.class, &self.props, PROP_LIVE)
    }

    pub fn set_live(&mut self, value: Live)
        requires
            old(self).wf(),
        ensures
            final(self).wf(),
            final(self)@.prop(PROP_LIVE) == PropertyView::Live(value),
            final(self)@.same_props_except(old(self)@, PROP_LIVE),
            final(self)@.role == old(self)@.role,
            final(self)@.actions == old(self)@.actions,
            final(self)@.flags == old(self)@.flags,
    {
        self.set_property(PROP_LIVE, PropertyValue::Live(value));
    }

    pub fn clear_live(&mut self)
        requires
            old(self).wf(),
        ensures
            final(self).wf(),
            final(self)@.prop(PROP_LIVE) == PropertyView::Empty,
            final(self)@.same_props_except(old(self)@, PROP_LIVE),
            final(self)@.role == old(self)@.role,
            final(self)@.actions == old(self)@.actions,
            final(self)@.flags == old(self)@.flags,
    {
        self.clear_property(PROP_LIVE);
    }

    pub fn default_action_verb(&self) -> (r: Option<DefaultActionVerb>)
        requires
            self.wf(),
        ensures
            r == default_action_verb_value(self@.prop(PROP_DEFAULT_ACTION_VERB)),
    {
        get_default_action_verb_property(&self.class, &self.props, PROP_DEFAULT_ACTION_VERB)
    }

    pub fn set_default_action_verb(&mut self, value: DefaultActionVerb)
        requires
            old(self).wf(),
        ensures
            final(self).wf(),
            final(self)@.prop(PROP_DEFAULT_ACTION_VERB) == PropertyView::DefaultActionVerb(value),
            final(self)@.same_props_except(old(self)@, PROP_DEFAULT_ACTION_VERB),
            final(self)@.role == old(self)@.role,
            final(self)@.actions == old(self)@.actions,
            final(self)@.flags == old(self)@.flags,
    {
        self.set_property(PROP_DEFAULT_ACTION_VERB, PropertyValue::DefaultActionVerb(value));
    }

    pub fn clear_default_action_verb(&mut self)
        requires
            old(self).wf(),
        ensures
            final(self).wf(),
            final(self)@.prop(PROP_DEFAULT_ACTION_VERB) == PropertyView::Empty,
            final(self)@.same_props_except(old(self)@, PROP_DEFAULT_ACTION_VERB),
            final(self)@.role == old(self)@.role,
            final(self)@.actions == old(self)@.actions,
            final(self)@.flags == old(self)@.flags,
    {
        self.clear_property(PROP_DEFAULT_ACTION_VERB);
    }

    pub fn text_direction(&self) -> (r: Option<TextDirection>)
        requires
            self.wf(),
        ensures
            r == text_direction_value(self@.prop(PROP_TEXT_DIRECTION)),
    {
        get_text_direction_property(&self.class, &self.props, PROP_TEXT_DIRECTION)
    }

    pub fn set_text_direction(&mut self, value: TextDirection)
        requires
            old(self).wf(),
        ensures
            final(self).wf(),
            final(self)@.prop(PROP_TEXT_DIRECTION) == PropertyView::TextDirection(value),
            final(self)@.same_props_except(old(self)@, PROP_TEXT_DIRECTION),
            final(self)@.role == old(self)@.role,
            final(self)@.actions == old(self)@.actions,
            final(self)@.flags == old(self)@.flags,
    {
        self.set_property(PROP_TEXT_DIRECTION, PropertyValue::TextDirection(value));
    }

    pub fn clear_text_direction(&mut self)
        requires
            old(self).wf(),
        ensures
            final(self).wf(),
            final(self)@.prop(PROP_TEXT_DIRECTION) == PropertyView::Empty,
            final(self)@.same_props_except(old(self)@, PROP_TEXT_DIRECTION),
            final(self)@.role == old(self)@.role,
            final(self)@.actions == old(self)@.actions,
            final(self)@.flags == old(self)@.flags,
    {
        self.clear_property(PROP_TEXT_DIRECTION);
    }

    pub fn orientation(&self) -> (r: Option<Orientation>)
        requires
            self.wf(),
        ensures
            r == orientation_value(self@.prop(PROP_ORIENTATION)),
    {
        get_orientation_property(&self.class, &self.props, PROP_ORIENTATION)
    }

    pub fn set_orientation(&mut self, value: Orientation)
        requires
            old(self).wf(),
        ensures
            final(self).wf(),
            final(self)@.prop(PROP_ORIENTATION) == PropertyView::Orientation(value),
            final(self)@.same_props_except(old(self)@, PROP_ORIENTATION),
            final(self)@.role == old(self)@.role,
            final(self)@.actions == old(self)@.actions,
            final(self)@.flags == old(self)@.flags,
    {
        self.set_property(PROP_ORIENTATION, PropertyValue::Orientation(value));
    }

    pub fn clear_orientation(&mut self)
        requires
            old(self).wf(),
        ensures
            final(self).wf(),
            final(self)@.prop(PROP_ORIENTATION) == PropertyView::Empty,
            final(self)@.same_props_except(old(self)@, PROP_ORIENTATION),
            final(self)@.role == old(self)@.role,
            final(self)@.actions == old(self)@.actions,
            final(self)@.flags == old(self)@.flags,
    {
        self.clear_property(PROP_ORIENTATION);
    }

    pub fn sort_direction(&self) -> (r: Option<SortDirection>)
        requires
            self.wf(),
        ensures
            r == sort_direction_value(self@.prop(PROP_SORT_DIRECTION)),
    {
        get_sort_direction_property(&self.class, &self.props, PROP_SORT_DIRECTION)
    }

    pub fn set_sort_direction(&mut self, value: SortDirection)
        requires
            old(self).wf(),
        ensures
            final(self).wf(),
            final(self)@.prop(PROP_SORT_DIRECTION) == PropertyView::SortDirection(value),
            final(self)@.same_props_except(old(self)@, PROP_SORT_DIRECTION),
            final(self)@.role == old(self)@.role,
            final(self)@.actions == old(self)@.actions,
            final(self)@.flags == old(self)@.flags,
    {
        self.set_property(PROP_SORT_DIRECTION, PropertyValue::SortDirection(value));
    }

    pub fn clear_sort_direction(&mut self)
        requires
            old(self).wf(),
        ensures
            final(self).wf(),
            final(self)@.prop(PROP_SORT_DIRECTION) == PropertyView::Empty,
            final(self)@.same_props_except(old(self)@, PROP_SORT_DIRECTION),
            final(self)@.role == old(self)@.role,
            final(self)@.actions == old(self)@.actions,
            final(self)@.flags == old(self)@.flags,
    {
        self.clear_property(PROP_SORT_DIRECTION);
    }

    pub fn aria_current(&self) -> (r: Option<AriaCurrent>)
        requires
            self.wf(),
        ensures
            r == aria_current_value(self@.prop(PROP_ARIA_CURRENT)),
    {
        get_aria_current_property(&self.class, &self.props, PROP_ARIA_CURRENT)
    }

    pub fn set_aria_current(&mut self, value: AriaCurrent)
        requires
            old(self).wf(),
        ensures
            final(self).wf(),
            final(self)@.prop(PROP_ARIA_CURRENT) == PropertyView::AriaCurrent(value),
            final(self)@.same_props_except(old(self)@, PROP_ARIA_CURRENT),
            final(self)@.role == old(self)@.role,
            final(self)@.actions == old(self)@.actions,
            final(self)@.flags == old(self)@.flags,
    {
        self.set_property(PROP_ARIA_CURRENT, PropertyValue::AriaCurrent(value));
    }

    pub fn clear_aria_current(&mut self)
        requires
            old(self).wf(),
        ensures
            final(self).wf(),
            final(self)@.prop(PROP_ARIA_CURRENT) == PropertyView::Empty,
            final(self)@.same_props_except(old(self)@, PROP_ARIA_CURRENT),
            final(self)@.role == old(self)@.role,
            final(self)@.actions == old(self)@.actions,
            final(self)@.flags == old(self)@.flags,
    {
        self.clear_property(PROP_ARIA_CURRENT);
    }

    pub fn auto_complete(&self) -> (r: Option<AutoComplete>)
        requires
            self.wf(),
        ensures
            r == auto_complete_value(self@.prop(PROP_AUTO_COMPLETE)),
    {
        get_auto_complete_property(&self.class, &self.props, PROP_AUTO_COMPLETE)
    }

    pub fn set_auto_complete(&mut self, value: AutoComplete)
        requires
            old(self).wf(),
        ensures
            final(self).wf(),
            final(self)@.prop(PROP_AUTO_COMPLETE) == PropertyView::AutoComplete(value),
            final(self)@.same_props_except(old(self)@, PROP_AUTO_COMPLETE),
            final(self)@.role == old(self)@.role,
            final(self)@.actions == old(self)@.actions,
            final(self)@.flags == old(self)@.flags,
    {
        self.set_property(PROP_AUTO_COMPLETE, PropertyValue::AutoComplete(value));
    }

    pub fn clear_auto_complete(&mut self)
        requires
            old(self).wf(),
        ensures
            final(self).wf(),
            final(self)@.prop(PROP_AUTO_COMPLETE) == PropertyView::Empty,
            final(self)@.same_props_except(old(self)@, PROP_AUTO_COMPLETE),
            final(self)@.role == old(self)@.role,
            final(self)@.actions == old(self)@.actions,
            final(self)@.flags == old(self)@.flags,
    {
        self.clear_property(PROP_AUTO_COMPLETE);
    }

    pub fn has_popup(&self) -> (r: Option<HasPopup>)
        requires
            self.wf(),
        ensures
            r == has_popup_value(self@.prop(PROP_HAS_POPUP)),
    {
        get_has_popup_property(&self.class, &self.props, PROP_HAS_POPUP)
    }

    pub fn set_has_popup(&mut self, value: HasPopup)
        requires
            old(self).wf(),
        ensures
            final(self).wf(),
            final(self)@.prop(PROP_HAS_POPUP) == PropertyView::HasPopup(value),
            final(self)@.same_props_except(old(self)@, PROP_HAS_POPUP),
            final(self)@.role == old(self)@.role,
            final(self)@.actions == old(self)@.actions,
            final(self)@.flags == old(self)@.flags,
    {
        self.set_property(PROP_HAS_POPUP, PropertyValue::HasPopup(value));
    }

    pub fn clear_has_popup(&mut self)
        requires
            old(self).wf(),
        ensures
            final(self).wf(),
            final(self)@.prop(PROP_HAS_POPUP) == PropertyView::Empty,
            final(self)@.same_props_except(old(self)@, PROP_HAS_POPUP),
            final(self)@.role == old(self)@.role,
            final(self)@.actions == old(self)@.actions,
            final(self)@.flags == old(self)@.flags,
    {
        self.clear_property(PROP_HAS_POPUP);
    }

    pub fn list_style(&self) -> (r: Option<ListStyle>)
        requires
            self.wf(),
        ensures
            r == list_style_value(self@.prop(PROP_LIST_STYLE)),
    {
        get_list_style_property(&self.class, &self.props, PROP_LIST_STYLE)
    }

    pub fn set_list_style(&mut self, value: ListStyle)
        requires
            old(self).wf(),
        ensures
            final(self).wf(),
            final(self)@.prop(PROP_LIST_STYLE) == PropertyView::ListStyle(value),
            final(self)@.same_props_except(old(self)@, PROP_LIST_STYLE),
            final(self)@.role == old(self)@.role,
            final(self)@.actions == old(self)@.actions,
            final(self)@.flags == old(self)@.flags,
    {
        self.set_property(PROP_LIST_STYLE, PropertyValue::ListStyle(value));
    }

    pub fn clear_list_style(&mut self)
        requires
            old(self).wf(),
        ensures
            final(self).wf(),
            final(self)@.prop(PROP_LIST_STYLE) == PropertyView::Empty,
            final(self)@.same_props_except(old(self)@, PROP_LIST_STYLE),
            final(self)@.role == old(self)@.role,
            final(self)@.actions == old(self)@.actions,
            final(self)@.flags == old(self)@.flags,
    {
        self.clear_property(PROP_LIST_STYLE);
    }

    pub fn text_align(&self) -> (r: Option<TextAlign>)
        requires
            self.wf(),
        ensures
            r == text_align_value(self@.prop(PROP_TEXT_ALIGN)),
    {
        get_text_align_property(&self.class, &self.props, PROP_TEXT_ALIGN)
    }

    pub fn set_text_align(&mut self, value: TextAlign)
        requires
            old(self).wf(),
        ensures
            final(self).wf(),
            final(self)@.prop(PROP_TEXT_ALIGN) == PropertyView::TextAlign(value),
            final(self)@.same_props_except(old(self)@, PROP_TEXT_ALIGN),
            final(self)@.role == old(self)@.role,
            final(self)@.actions == old(self)@.actions,
            final(self)@.flags == old(self)@.flags,
    {
        self.set_property(PROP_TEXT_ALIGN, PropertyValue::TextAlign(value));
    }

    pub fn clear_text_align(&mut self)
        requires
            old(self).wf(),
        ensures
            final(self).wf(),
            final(self)@.prop(PROP_TEXT_ALIGN) == PropertyView::Empty,
            final(self)@.same_props_except(old(self)@, PROP_TEXT_ALIGN),
            final(self)@.role == old(self)@.role,
            final(self)@.actions == old(self)@.actions,
            final(self)@.flags == old(self)@.flags,
    {
        self.clear_property(PROP_TEXT_ALIGN);
    }

    pub fn vertical_offset(&self) -> (r: Option<VerticalOffset>)
        requires
            self.wf(),
        ensures
            r == vertical_offset_value(self@.prop(PROP_VERTICAL_OFFSET)),
    {
        get_vertical_offset_property(&self.class, &self.props, PROP_VERTICAL_OFFSET)
    }

    pub fn set_vertical_offset(&mut self, value: VerticalOffset)
        requires
            old(self).wf(),
        ensures
            final(self).wf(),
            final(self)@.prop(PROP_VERTICAL_OFFSET) == PropertyView::VerticalOffset(value),
            final(self)@.same_props_except(old(self)@, PROP_VERTICAL_OFFSET),
            final(self)@.role == old(self)@.role,
            final(self)@.actions == old(self)@.actions,
            final(self)@.flags == old(self)@.flags,
    {
        self.set_property(PROP_VERTICAL_OFFSET, PropertyValue::VerticalOffset(value));
    }

    pub fn clear_vertical_offset(&mut self)
        requires
            old(self).wf(),
        ensures
            final(self).wf(),
            final(self)@.prop(PROP_VERTICAL_OFFSET) == PropertyView::Empty,
            final(self)@.same_props_except(old(self)@, PROP_VERTICAL_OFFSET),
            final(self)@.role == old(self)@.role,
            final(self)@.actions == old(self)@.actions,
            final(self)@.flags == old(self)@.flags,
    {
        self.clear_property(PROP_VERTICAL_OFFSET);
    }

    pub fn text_selection(&self) -> (r: Option<TextSelection>)
        requires
            self.wf(),
        ensures
            r == text_selection_value(self@.prop(PROP_TEXT_SELECTION)),
    {
        get_text_selection_property(&self.class, &self.props, PROP_TEXT_SELECTION)
    }

    pub fn set_text_selection(&mut self, value: TextSelection)
        requires
            old(self).wf(),
        ensures
            final(self).wf(),
            final(self)@.prop(PROP_TEXT_SELECTION) == PropertyView::TextSelection(value),
            final(self)@.same_props_except(old(self)@, PROP_TEXT_SELECTION),
            final(self)@.role == old(self)@.role,
            final(self)@.actions == old(self)@.actions,
            final(self)@.flags == old(self)@.flags,
    {
        self.set_property(PROP_TEXT_SELECTION, PropertyValue::TextSelection(value));
    }

    pub fn clear_text_selection(&mut self)
        requires
            old(self).wf(),
        ensures
            final(self).wf(),
            final(self)@.prop(PROP_TEXT_SELECTION) == PropertyView::Empty,
            final(self)@.same_props_except(old(self)@, PROP_TEXT_SELECTION),
            final(self)@.role == old(self)@.role,
            final(self)@.actions == old(self)@.actions,
            final(self)@.flags == old(self)@.flags,
    {
        self.clear_property(PROP_TEXT_SELECTION);
    }

    pub fn custom_actions(&self) -> (r: &[CustomAction])
        requires
            self.wf(),
        ensures
            custom_actions_view(r@) == custom_action_vec_value(self@.prop(PROP_CUSTOM_ACTIONS)),
    {
        get_custom_action_vec_property(&self.class, &self.props, PROP_CUSTOM_ACTIONS)
    }

    pub fn set_custom_actions(&mut self, value: Vec<CustomAction>)
        requires
            old(self).wf(),
        ensures
            final(self).wf(),
            final(self)@.prop(PROP_CUSTOM_ACTIONS) == PropertyView::CustomActionVec(custom_actions_view(value@)),
            final(self)@.same_props_except(old(self)@, PROP_CUSTOM_ACTIONS),
            final(self)@.role == old(self)@.role,
            final(self)@.actions == old(self)@.actions,
            final(self)@.flags == old(self)@.flags,
    {
        self.set_property(PROP_CUSTOM_ACTIONS, PropertyValue::CustomActionVec(value));
    }

    pub fn clear_custom_actions(&mut self)
        requires
            old(self).wf(),
        ensures
            final(self).wf(),
            final(self)@.prop(PROP_CUSTOM_ACTIONS) == PropertyView::Empty,
            final(self)@.same_props_except(old(self)@, PROP_CUSTOM_ACTIONS),
            final(self)@.role == old(self)@.role,
            final(self)@.actions == old(self)@.actions,
            final(self)@.flags == old(self)@.flags,
    {
        self.clear_property(PROP_CUSTOM_ACTIONS);
    }

    pub fn push_custom_action(&mut self, item: CustomAction)
        requires
            old(self).wf(),
        ensures
            final(self).wf(),
            custom_action_vec_value(final(self)@.prop(PROP_CUSTOM_ACTIONS))
                == custom_action_vec_value(old(self)@.prop(PROP_CUSTOM_ACTIONS)).push((item.id, item.description@)),
            final(self)@.same_props_except(old(self)@, PROP_CUSTOM_ACTIONS),
            final(self)@.role == old(self)@.role,
            final(self)@.actions == old(self)@.actions,
            final(self)@.flags == old(self)@.flags,
    {
        self.push_to_custom_action_vec(PROP_CUSTOM_ACTIONS, item);
    }

    pub fn tree_id(&self) -> (r: Option<TreeId>)
        requires
            self.wf(),
        ensures
            r == tree_id_value(self@.prop(PROP_TREE_ID)),
    {
        get_tree_id_property(&self.class, &self.props, PROP_TREE_ID)
    }

    pub fn set_tree_id(&mut self, value: TreeId)
        requires
            old(self).wf(),
        ensures
            final(self).wf(),
            final(self)@.prop(PROP_TREE_ID) == PropertyView::TreeId(value),
            final(self)@.same_props_except(old(self)@, PROP_TREE_ID),
            final(self)@.role == old(self)@.role,
            final(self)@.actions == old(self)@.actions,
            final(self)@.flags == old(self)@.flags,
    {
        self.set_property(PROP_TREE_ID, PropertyValue::TreeId(value));
    }

    pub fn clear_tree_id(&mut self)
        requires
            old(self).wf(),
        ensures
            final(self).wf(),
            final(self)@.prop(PROP_TREE_ID) == PropertyView::Empty,
            final(self)@.same_props_except(old(self)@, PROP_TREE_ID),
            final(self)@.role == old(self)@.role,
            final(self)@.actions == old(self)@.actions,
            final(self)@.flags == old(self)@.flags,
    {
        self.clear_property(PROP_TREE_ID);
    }

}

impl Node {
    pub fn is_hovered(&self) -> (r: bool)
        ensures
            r == self@.has_flag(Flag::Hovered),
    {
        self.get_flag(Flag::Hovered)
    }

    pub fn is_hidden(&self) -> (r: bool)
        ensures
            r == self@.has_flag(Flag::Hidden),
    {
        self.get_flag(Flag::Hidden)
    }

    pub fn is_linked(&self) -> (r: bool)
        ensures
            r == self@.has_flag(Flag::Linked),
    {
        self.get_flag(Flag::Linked)
    }

    pub fn is_multiselectable(&self) -> (r: bool)
        ensures
            r == self@.has_flag(Flag::Multiselectable),
    {
        self.get_flag(Flag::Multiselectable)
    }

    pub fn is_required(&self) -> (r: bool)
        ensures
            r == self@.has_flag(Flag::Required),
    {
        self.get_flag(Flag::Required)
    }

    pub fn is_visited(&self) -> (r: bool)
        ensures
            r == self@.has_flag(Flag::Visited),
    {
        self.get_flag(Flag::Visited)
    }

    pub fn is_busy(&self) -> (r: bool)
        ensures
            r == self@.has_flag(Flag::Busy),
    {
        self.get_flag(Flag::Busy)
    }

    pub fn is_live_atomic(&self) -> (r: bool)
        ensures
            r == self@.has_flag(Flag::LiveAtomic),
    {
        self.get_flag(Flag::LiveAtomic)
    }

    pub fn is_modal(&self) -> (r: bool)
        ensures
            r == self@.has_flag(Flag::Modal),
    {
        self.get_flag(Flag::Modal)
    }

    pub fn is_touch_transparent(&self) -> (r: bool)
        ensures
            r == self@.has_flag(Flag::TouchTransparent),
    {
        self.get_flag(Flag::TouchTransparent)
    }

    pub fn is_read_only(&self) -> (r: bool)
        ensures
            r == self@.has_flag(Flag::ReadOnly),
    {
        self.get_flag(Flag::ReadOnly)
    }

    pub fn is_disabled(&self) -> (r: bool)
        ensures
            r == self@.has_flag(Flag::Disabled),
    {
        self.get_flag(Flag::Disabled)
    }

    pub fn is_bold(&self) -> (r: bool)
        ensures
            r == self@.has_flag(Flag::Bold),
    {
        self.get_flag(Flag::Bold)
    }

    pub fn is_italic(&self) -> (r: bool)
        ensures
            r == self@.has_flag(Flag::Italic),
    {
        self.get_flag(Flag::Italic)
    }

    pub fn clips_children(&self) -> (r: bool)
        ensures
            r == self@.has_flag(Flag::ClipsChildren),
    {
        self.get_flag(Flag::ClipsChildren)
    }

    pub fn is_line_breaking_object(&self) -> (r: bool)
        ensures
            r == self@.has_flag(Flag::IsLineBreakingObject),
    {
        self.get_flag(Flag::IsLineBreakingObject)
    }

    pub fn is_page_breaking_object(&self) -> (r: bool)
        ensures
            r == self@.has_flag(Flag::IsPageBreakingObject),
    {
        self.get_flag(Flag::IsPageBreakingObject)
    }

    pub fn is_spelling_error(&self) -> (r: bool)
        ensures
            r == self@.has_flag(Flag::IsSpellingError),
    {
        self.get_flag(Flag::IsSpellingError)
    }

    pub fn is_grammar_error(&self) -> (r: bool)
        ensures
            r == self@.has_flag(Flag::IsGrammarError),
    {
        self.get_flag(Flag::IsGrammarError)
    }

    pub fn is_search_match(&self) -> (r: bool)
        ensures
            r == self@.has_flag(Flag::IsSearchMatch),
    {
        self.get_flag(Flag::IsSearchMatch)
    }

    pub fn is_suggestion(&self) -> (r: bool)
        ensures
            r == self@.has_flag(Flag::IsSuggestion),
    {
        self.get_flag(Flag::IsSuggestion)
    }

}

impl NodeBuilder {
    pub fn is_hovered(&self) -> (r: bool)
        ensures
            r == self@.has_flag(Flag::Hovered),
    {
        self.get_flag(Flag::Hovered)
    }

    pub fn set_hovered(&mut self)
        requires
            old(self).wf(),
        ensures
            final(self).wf(),
            final(self)@.has_flag(Flag::Hovered),
            forall|g: Flag| g != Flag::Hovered ==> #[trigger] final(self)@.has_flag(g) == old(self)@.has_flag(g),
            final(self)@ == (NodeView { flags: final(self)@.flags, ..old(self)@ }),
    {
        self.set_flag(Flag::Hovered);
    }

    pub fn clear_hovered(&mut self)
        requires
            old(self).wf(),
        ensures
            final(self).wf(),
            !final(self)@.has_flag(Flag::Hovered),
            forall|g: Flag| g != Flag::Hovered ==> #[trigger] final(self)@.has_flag(g) == old(self)@.has_flag(g),
            final(self)@ == (NodeView { flags: final(self)@.flags, ..old(self)@ }),
    {
        self.clear_flag(Flag::Hovered);
    }

    pub fn is_hidden(&self) -> (r: bool)
        ensures
            r == self@.has_flag(Flag::Hidden),
    {
        self.get_flag(Flag::Hidden)
    }

    pub fn set_hidden(&mut self)
        requires
            old(self).wf(),
        ensures
            final(self).wf(),
            final(self)@.has_flag(Flag::Hidden),
            forall|g: Flag| g != Flag::Hidden ==> #[trigger] final(self)@.has_flag(g) == old(self)@.has_flag(g),
            final(self)@ == (NodeView { flags: final(self)@.flags, ..old(self)@ }),
    {
        self.set_flag(Flag::Hidden);
    }

    pub fn clear_hidden(&mut self)
        requires
            old(self).wf(),
        ensures
            final(self).wf(),
            !final(self)@.has_flag(Flag::Hidden),
            forall|g: Flag| g != Flag::Hidden ==> #[trigger] final(self)@.has_flag(g) == old(self)@.has_flag(g),
            final(self)@ == (NodeView { flags: final(self)@.flags, ..old(self)@ }),
    {
        self.clear_flag(Flag::Hidden);
    }

    pub fn is_linked(&self) -> (r: bool)
        ensures
            r == self@.has_flag(Flag::Linked),
    {
        self.get_flag(Flag::Linked)
    }

    pub fn set_linked(&mut self)
        requires
            old(self).wf(),
        ensures
            final(self).wf(),
            final(self)@.has_flag(Flag::Linked),
            forall|g: Flag| g != Flag::Linked ==> #[trigger] final(self)@.has_flag(g) == old(self)@.has_flag(g),
            final(self)@ == (NodeView { flags: final(self)@.flags, ..old(self)@ }),
    {
        self.set_flag(Flag::Linked);
    }

    pub fn clear_linked(&mut self)
        requires
            old(self).wf(),
        ensures
            final(self).wf(),
            !final(self)@.has_flag(Flag::Linked),
            forall|g: Flag| g != Flag::Linked ==> #[trigger] final(self)@.has_flag(g) == old(self)@.has_flag(g),
            final(self)@ == (NodeView { flags: final(self)@.flags, ..old(self)@ }),
    {
        self.clear_flag(Flag::Linked);
    }

    pub fn is_multiselectable(&self) -> (r: bool)
        ensures
            r == self@.has_flag(Flag::Multiselectable),
    {
        self.get_flag(Flag::Multiselectable)
    }

    pub fn set_multiselectable(&mut self)
        requires
            old(self).wf(),
        ensures
            final(self).wf(),
            final(self)@.has_flag(Flag::Multiselectable),
            forall|g: Flag| g != Flag::Multiselectable ==> #[trigger] final(self)@.has_flag(g) == old(self)@.has_flag(g),
            final(self)@ == (NodeView { flags: final(self)@.flags, ..old(self)@ }),
    {
        self.set_flag(Flag::Multiselectable);
    }

    pub fn clear_multiselectable(&mut self)
        requires
            old(self).wf(),
        ensures
            final(self).wf(),
            !final(self)@.has_flag(Flag::Multiselectable),
            forall|g: Flag| g != Flag::Multiselectable ==> #[trigger] final(self)@.has_flag(g) == old(self)@.has_flag(g),
            final(self)@ == (NodeView { flags: final(self)@.flags, ..old(self)@ }),
    {
        self.clear_flag(Flag::Multiselectable);
    }

    pub fn is_required(&self) -> (r: bool)
        ensures
            r == self@.has_flag(Flag::Required),
    {
        self.get_flag(Flag::Required)
    }

    pub fn set_required(&mut self)
        requires
            old(self).wf(),
        ensures
            final(self).wf(),
            final(self)@.has_flag(Flag::Required),
            forall|g: Flag| g != Flag::Required ==> #[trigger] final(self)@.has_flag(g) == old(self)@.has_flag(g),
            final(self)@ == (NodeView { flags: final(self)@.flags, ..old(self)@ }),
    {
        self.set_flag(Flag::Required);
    }

    pub fn clear_required(&mut self)
        requires
            old(self).wf(),
        ensures
            final(self).wf(),
            !final(self)@.has_flag(Flag::Required),
            forall|g: Flag| g != Flag::Required ==> #[trigger] final(self)@.has_flag(g) == old(self)@.has_flag(g),
            final(self)@ == (NodeView { flags: final(self)@.flags, ..old(self)@ }),
    {
        self.clear_flag(Flag::Required);
    }

    pub fn is_visited(&self) -> (r: bool)
        ensures
            r == self@.has_flag(Flag::Visited),
    {
        self.get_flag(Flag::Visited)
    }

    pub fn set_visited(&mut self)
        requires
            old(self).wf(),
        ensures
            final(self).wf(),
            final(self)@.has_flag(Flag::Visited),
            forall|g: Flag| g != Flag::Visited ==> #[trigger] final(self)@.has_flag(g) == old(self)@.has_flag(g),
            final(self)@ == (NodeView { flags: final(self)@.flags, ..old(self)@ }),
    {
        self.set_flag(Flag::Visited);
    }

    pub fn clear_visited(&mut self)
        requires
            old(self).wf(),
        ensures
            final(self).wf(),
            !final(self)@.has_flag(Flag::Visited),
            forall|g: Flag| g != Flag::Visited ==> #[trigger] final(self)@.has_flag(g) == old(self)@.has_flag(g),
            final(self)@ == (NodeView { flags: final(self)@.flags, ..old(self)@ }),
    {
        self.clear_flag(Flag::Visited);
    }

    pub fn is_busy(&self) -> (r: bool)
        ensures
            r == self@.has_flag(Flag::Busy),
    {
        self.get_flag(Flag::Busy)
    }

    pub fn set_busy(&mut self)
        requires
            old(self).wf(),
        ensures
            final(self).wf(),
            final(self)@.has_flag(Flag::Busy),
            forall|g: Flag| g != Flag::Busy ==> #[trigger] final(self)@.has_flag(g) == old(self)@.has_flag(g),
            final(self)@ == (NodeView { flags: final(self)@.flags, ..old(self)@ }),
    {
        self.set_flag(Flag::Busy);
    }

    pub fn clear_busy(&mut self)
        requires
            old(self).wf(),
        ensures
            final(self).wf(),
            !final(self)@.has_flag(Flag::Busy),
            forall|g: Flag| g != Flag::Busy ==> #[trigger] final(self)@.has_flag(g) == old(self)@.has_flag(g),
            final(self)@ == (NodeView { flags: final(self)@.flags, ..old(self)@ }),
    {
        self.clear_flag(Flag::Busy);
    }

    pub fn is_live_atomic(&self) -> (r: bool)
        ensures
            r == self@.has_flag(Flag::LiveAtomic),
    {
        self.get_flag(Flag::LiveAtomic)
    }

    pub fn set_live_atomic(&mut self)
        requires
            old(self).wf(),
        ensures
            final(self).wf(),
            final(self)@.has_flag(Flag::LiveAtomic),
            forall|g: Flag| g != Flag::LiveAtomic ==> #[trigger] final(self)@.has_flag(g) == old(self)@.has_flag(g),
            final(self)@ == (NodeView { flags: final(self)@.flags, ..old(self)@ }),
    {
        self.set_flag(Flag::LiveAtomic);
    }

    pub fn clear_live_atomic(&mut self)
        requires
            old(self).wf(),
        ensures
            final(self).wf(),
            !final(self)@.has_flag(Flag::LiveAtomic),
            forall|g: Flag| g != Flag::LiveAtomic ==> #[trigger] final(self)@.has_flag(g) == old(self)@.has_flag(g),
            final(self)@ == (NodeView { flags: final(self)@.flags, ..old(self)@ }),
    {
        self.clear_flag(Flag::LiveAtomic);
    }

    pub fn is_modal(&self) -> (r: bool)
        ensures
            r == self@.has_flag(Flag::Modal),
    {
        self.get_flag(Flag::Modal)
    }

    pub fn set_modal(&mut self)
        requires
            old(self).wf(),
        ensures
            final(self).wf(),
            final(self)@.has_flag(Flag::Modal),
            forall|g: Flag| g != Flag::Modal ==> #[trigger] final(self)@.has_flag(g) == old(self)@.has_flag(g),
            final(self)@ == (NodeView { flags: final(self)@.flags, ..old(self)@ }),
    {
        self.set_flag(Flag::Modal);
    }

    pub fn clear_modal(&mut self)
        requires
            old(self).wf(),
        ensures
            final(self).wf(),
            !final(self)@.has_flag(Flag::Modal),
            forall|g: Flag| g != Flag::Modal ==> #[trigger] final(self)@.has_flag(g) == old(self)@.has_flag(g),
            final(self)@ == (NodeView { flags: final(self)@.flags, ..old(self)@ }),
    {
        self.clear_flag(Flag::Modal);
    }

    pub fn is_touch_transparent(&self) -> (r: bool)
        ensures
            r == self@.has_flag(Flag::TouchTransparent),
    {
        self.get_flag(Flag::TouchTransparent)
    }

    pub fn set_touch_transparent(&mut self)
        requires
            old(self).wf(),
        ensures
            final(self).wf(),
            final(self)@.has_flag(Flag::TouchTransparent),
            forall|g: Flag| g != Flag::TouchTransparent ==> #[trigger] final(self)@.has_flag(g) == old(self)@.has_flag(g),
            final(self)@ == (NodeView { flags: final(self)@.flags, ..old(self)@ }),
    {
        self.set_flag(Flag::TouchTransparent);
    }

    pub fn clear_touch_transparent(&mut self)
        requires
            old(self).wf(),
        ensures
            final(self).wf(),
            !final(self)@.has_flag(Flag::TouchTransparent),
            forall|g: Flag| g != Flag::TouchTransparent ==> #[trigger] final(self)@.has_flag(g) == old(self)@.has_flag(g),
            final(self)@ == (NodeView { flags: final(self)@.flags, ..old(self)@ }),
    {
        self.clear_flag(Flag::TouchTransparent);
    }

    pub fn is_read_only(&self) -> (r: bool)
        ensures
            r == self@.has_flag(Flag::ReadOnly),
    {
        self.get_flag(Flag::ReadOnly)
    }

    pub fn set_read_only(&mut self)
        requires
            old(self).wf(),
        ensures
            final(self).wf(),
            final(self)@.has_flag(Flag::ReadOnly),
            forall|g: Flag| g != Flag::ReadOnly ==> #[trigger] final(self)@.has_flag(g) == old(self)@.has_flag(g),
            final(self)@ == (NodeView { flags: final(self)@.flags, ..old(self)@ }),
    {
        self.set_flag(Flag::ReadOnly);
    }

    pub fn clear_read_only(&mut self)
        requires
            old(self).wf(),
        ensures
            final(self).wf(),
            !final(self)@.has_flag(Flag::ReadOnly),
            forall|g: Flag| g != Flag::ReadOnly ==> #[trigger] final(self)@.has_flag(g) == old(self)@.has_flag(g),
            final(self)@ == (NodeView { flags: final(self)@.flags, ..old(self)@ }),
    {
        self.clear_flag(Flag::ReadOnly);
    }

    pub fn is_disabled(&self) -> (r: bool)
        ensures
            r == self@.has_flag(Flag::Disabled),
    {
        self.get_flag(Flag::Disabled)
    }

    pub fn set_disabled(&mut self)
        requires
            old(self).wf(),
        ensures
            final(self).wf(),
            final(self)@.has_flag(Flag::Disabled),
            forall|g: Flag| g != Flag::Disabled ==> #[trigger] final(self)@.has_flag(g) == old(self)@.has_flag(g),
            final(self)@ == (NodeView { flags: final(self)@.flags, ..old(self)@ }),
    {
        self.set_flag(Flag::Disabled);
    }

    pub fn clear_disabled(&mut self)
        requires
            old(self).wf(),
        ensures
            final(self).wf(),
            !final(self)@.has_flag(Flag::Disabled),
            forall|g: Flag| g != Flag::Disabled ==> #[trigger] final(self)@.has_flag(g) == old(self)@.has_flag(g),
            final(self)@ == (NodeView { flags: final(self)@.flags, ..old(self)@ }),
    {
        self.clear_flag(Flag::Disabled);
    }

    pub fn is_bold(&self) -> (r: bool)
        ensures
            r == self@.has_flag(Flag::Bold),
    {
        self.get_flag(Flag::Bold)
    }

    pub fn set_bold(&mut self)
        requires
            old(self).wf(),
        ensures
            final(self).wf(),
            final(self)@.has_flag(Flag::Bold),
            forall|g: Flag| g != Flag::Bold ==> #[trigger] final(self)@.has_flag(g) == old(self)@.has_flag(g),
            final(self)@ == (NodeView { flags: final(self)@.flags, ..old(self)@ }),
    {
        self.set_flag(Flag::Bold);
    }

    pub fn clear_bold(&mut self)
        requires
            old(self).wf(),
        ensures
            final(self).wf(),
            !final(self)@.has_flag(Flag::Bold),
            forall|g: Flag| g != Flag::Bold ==> #[trigger] final(self)@.has_flag(g) == old(self)@.has_flag(g),
            final(self)@ == (NodeView { flags: final(self)@.flags, ..old(self)@ }),
    {
        self.clear_flag(Flag::Bold);
    }

    pub fn is_italic(&self) -> (r: bool)
        ensures
            r == self@.has_flag(Flag::Italic),
    {
        self.get_flag(Flag::Italic)
    }

    pub fn set_italic(&mut self)
        requires
            old(self).wf(),
        ensures
            final(self).wf(),
            final(self)@.has_flag(Flag::Italic),
            forall|g: Flag| g != Flag::Italic ==> #[trigger] final(self)@.has_flag(g) == old(self)@.has_flag(g),
            final(self)@ == (NodeView { flags: final(self)@.flags, ..old(self)@ }),
    {
        self.set_flag(Flag::Italic);
    }

    pub fn clear_italic(&mut self)
        requires
            old(self).wf(),
        ensures
            final(self).wf(),
            !final(self)@.has_flag(Flag::Italic),
            forall|g: Flag| g != Flag::Italic ==> #[trigger] final(self)@.has_flag(g) == old(self)@.has_flag(g),
            final(self)@ == (NodeView { flags: final(self)@.flags, ..old(self)@ }),
    {
        self.clear_flag(Flag::Italic);
    }

    pub fn clips_children(&self) -> (r: bool)
        ensures
            r == self@.has_flag(Flag::ClipsChildren),
    {
        self.get_flag(Flag::ClipsChildren)
    }

    pub fn set_clips_children(&mut self)
        requires
            old(self).wf(),
        ensures
            final(self).wf(),
            final(self)@.has_flag(Flag::ClipsChildren),
            forall|g: Flag| g != Flag::ClipsChildren ==> #[trigger] final(self)@.has_flag(g) == old(self)@.has_flag(g),
            final(self)@ == (NodeView { flags: final(self)@.flags, ..old(self)@ }),
    {
        self.set_flag(Flag::ClipsChildren);
    }

    pub fn clear_clips_children(&mut self)
        requires
            old(self).wf(),
        ensures
            final(self).wf(),
            !final(self)@.has_flag(Flag::ClipsChildren),
            forall|g: Flag| g != Flag::ClipsChildren ==> #[trigger] final(self)@.has_flag(g) == old(self)@.has_flag(g),
            final(self)@ == (NodeView { flags: final(self)@.flags, ..old(self)@ }),
    {
        self.clear_flag(Flag::ClipsChildren);
    }

    pub fn is_line_breaking_object(&self) -> (r: bool)
        ensures
            r == self@.has_flag(Flag::IsLineBreakingObject),
    {
        self.get_flag(Flag::IsLineBreakingObject)
    }

    pub fn set_is_line_breaking_object(&mut self)
        requires
            old(self).wf(),
        ensures
            final(self).wf(),
            final(self)@.has_flag(Flag::IsLineBreakingObject),
            forall|g: Flag| g != Flag::IsLineBreakingObject ==> #[trigger] final(self)@.has_flag(g) == old(self)@.has_flag(g),
            final(self)@ == (NodeView { flags: final(self)@.flags, ..old(self)@ }),
    {
        self.set_flag(Flag::IsLineBreakingObject);
    }

    pub fn clear_is_line_breaking_object(&mut self)
        requires
            old(self).wf(),
        ensures
            final(self).wf(),
            !final(self)@.has_flag(Flag::IsLineBreakingObject),
            forall|g: Flag| g != Flag::IsLineBreakingObject ==> #[trigger] final(self)@.has_flag(g) == old(self)@.has_flag(g),
            final(self)@ == (NodeView { flags: final(self)@.flags, ..old(self)@ }),
    {
        self.clear_flag(Flag::IsLineBreakingObject);
    }

    pub fn is_page_breaking_object(&self) -> (r: bool)
        ensures
            r == self@.has_flag(Flag::IsPageBreakingObject),
    {
        self.get_flag(Flag::IsPageBreakingObject)
    }

    pub fn set_is_page_breaking_object(&mut self)
        requires
            old(self).wf(),
        ensures
            final(self).wf(),
            final(self)@.has_flag(Flag::IsPageBreakingObject),
            forall|g: Flag| g != Flag::IsPageBreakingObject ==> #[trigger] final(self)@.has_flag(g) == old(self)@.has_flag(g),
            final(self)@ == (NodeView { flags: final(self)@.flags, ..old(self)@ }),
    {
        self.set_flag(Flag::IsPageBreakingObject);
    }

    pub fn clear_is_page_breaking_object(&mut self)
        requires
            old(self).wf(),
        ensures
            final(self).wf(),
            !final(self)@.has_flag(Flag::IsPageBreakingObject),
            forall|g: Flag| g != Flag::IsPageBreakingObject ==> #[trigger] final(self)@.has_flag(g) == old(self)@.has_flag(g),
            final(self)@ == (NodeView { flags: final(self)@.flags, ..old(self)@ }),
    {
        self.clear_flag(Flag::IsPageBreakingObject);
    }

    pub fn is_spelling_error(&self) -> (r: bool)
        ensures
            r == self@.has_flag(Flag::IsSpellingError),
    {
        self.get_flag(Flag::IsSpellingError)
    }

    pub fn set_is_spelling_error(&mut self)
        requires
            old(self).wf(),
        ensures
            final(self).wf(),
            final(self)@.has_flag(Flag::IsSpellingError),
            forall|g: Flag| g != Flag::IsSpellingError ==> #[trigger] final(self)@.has_flag(g) == old(self)@.has_flag(g),
            final(self)@ == (NodeView { flags: final(self)@.flags, ..old(self)@ }),
    {
        self.set_flag(Flag::IsSpellingError);
    }

    pub fn clear_is_spelling_error(&mut self)
        requires
            old(self).wf(),
        ensures
            final(self).wf(),
            !final(self)@.has_flag(Flag::IsSpellingError),
            forall|g: Flag| g != Flag::IsSpellingError ==> #[trigger] final(self)@.has_flag(g) == old(self)@.has_flag(g),
            final(self)@ == (NodeView { flags: final(self)@.flags, ..old(self)@ }),
    {
        self.clear_flag(Flag::IsSpellingError);
    }

    pub fn is_grammar_error(&self) -> (r: bool)
        ensures
            r == self@.has_flag(Flag::IsGrammarError),
    {
        self.get_flag(Flag::IsGrammarError)
    }

    pub fn set_is_grammar_error(&mut self)
        requires
            old(self).wf(),
        ensures
            final(self).wf(),
            final(self)@.has_flag(Flag::IsGrammarError),
            forall|g: Flag| g != Flag::IsGrammarError ==> #[trigger] final(self)@.has_flag(g) == old(self)@.has_flag(g),
            final(self)@ == (NodeView { flags: final(self)@.flags, ..old(self)@ }),
    {
        self.set_flag(Flag::IsGrammarError);
    }

    pub fn clear_is_grammar_error(&mut self)
        requires
            old(self).wf(),
        ensures
            final(self).wf(),
            !final(self)@.has_flag(Flag::IsGrammarError),
            forall|g: Flag| g != Flag::IsGrammarError ==> #[trigger] final(self)@.has_flag(g) == old(self)@.has_flag(g),
            final(self)@ == (NodeView { flags: final(self)@.flags, ..old(self)@ }),
    {
        self.clear_flag(Flag::IsGrammarError);
    }

    pub fn is_search_match(&self) -> (r: bool)
        ensures
            r == self@.has_flag(Flag::IsSearchMatch),
    {
        self.get_flag(Flag::IsSearchMatch)
    }

    pub fn set_is_search_match(&mut self)
        requires
            old(self).wf(),
        ensures
            final(self).wf(),
            final(self)@.has_flag(Flag::IsSearchMatch),
            forall|g: Flag| g != Flag::IsSearchMatch ==> #[trigger] final(self)@.has_flag(g) == old(self)@.has_flag(g),
            final(self)@ == (NodeView { flags: final(self)@.flags, ..old(self)@ }),
    {
        self.set_flag(Flag::IsSearchMatch);
    }

    pub fn clear_is_search_match(&mut self)
        requires
            old(self).wf(),
        ensures
            final(self).wf(),
            !final(self)@.has_flag(Flag::IsSearchMatch),
            forall|g: Flag| g != Flag::IsSearchMatch ==> #[trigger] final(self)@.has_flag(g) == old(self)@.has_flag(g),
            final(self)@ == (NodeView { flags: final(self)@.flags, ..old(self)@ }),
    {
        self.clear_flag(Flag::IsSearchMatch);
    }

    pub fn is_suggestion(&self) -> (r: bool)
        ensures
            r == self@.has_flag(Flag::IsSuggestion),
    {
        self.get_flag(Flag::IsSuggestion)
    }

    pub fn set_is_suggestion(&mut self)
        requires
            old(self).wf(),
        ensures
            final(self).wf(),
            final(self)@.has_flag(Flag::IsSuggestion),
            forall|g: Flag| g != Flag::IsSuggestion ==> #[trigger] final(self)@.has_flag(g) == old(self)@.has_flag(g),
            final(self)@ == (NodeView { flags: final(self)@.flags, ..old(self)@ }),
    {
        self.set_flag(Flag::IsSuggestion);
    }

    pub fn clear_is_suggestion(&mut self)
        requires
            old(self).wf(),
        ensures
            final(self).wf(),
            !final(self)@.has_flag(Flag::IsSuggestion),
            forall|g: Flag| g != Flag::IsSuggestion ==> #[trigger] final(self)@.has_flag(g) == old(self)@.has_flag(g),
            final(self)@ == (NodeView { flags: final(self)@.flags, ..old(self)@ }),
    {
        self.clear_flag(Flag::IsSuggestion);
    }

}

} // verus!
