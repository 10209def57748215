//! Tables as platforms see them: a grid of cells built from a table node's
//! rows (or, when it has none, from the row and column indices of its
//! cells), and the questions asked of such a grid.

use vstd::prelude::*;

use crate::filters::{decided_by, filter_total, opt_id, shown_ancestor, FilterResult};
use crate::ids::{FullNodeId, NodeStateView};
use crate::iterators::{filtered_children_of, shown, shown_children_seq};
use crate::roles::Role;
use crate::schema::{bool_value, usize_value, PROP_SELECTED, PROP_TABLE_CELL_COLUMN_INDEX, PROP_TABLE_CELL_ROW_INDEX};
use crate::tree::{NodeRef, TreeState};

verus! {

/// Roles of table cells.
pub open spec fn table_cell_role(role: Role) -> bool {
    role == Role::Cell || role == Role::GridCell || role == Role::RowHeader || role == Role::ColumnHeader
}

/// Roles of data cells (not headers).
pub open spec fn data_cell_role(role: Role) -> bool {
    role == Role::Cell || role == Role::GridCell
}

/// The cells of a table are its data cells and its row and column
/// headers: a role is that of a table cell exactly when it is a data cell
/// role or a header role. In particular every data cell (a cell or a grid
/// cell) is taken as a table cell.
pub proof fn law_table_cells_are_data_cells_and_headers(role: Role)
    ensures
        table_cell_role(role) <==> (data_cell_role(role) || role == Role::RowHeader || role == Role::ColumnHeader),
        data_cell_role(role) ==> table_cell_role(role),
        data_cell_role(role) <==> (role == Role::Cell || role == Role::GridCell),
{
}

/// Whether a role is that of a table cell.
pub fn is_table_cell_role(role: Role) -> (r: bool)
    ensures
        r == table_cell_role(role),
{
    match role {
        Role::Cell | Role::GridCell | Role::RowHeader | Role::ColumnHeader => true,
        _ => false,
    }
}

/// Whether a role is that of a data cell.
pub fn is_data_cell_role(role: Role) -> (r: bool)
    ensures
        r == data_cell_role(role),
{
    match role {
        Role::Cell | Role::GridCell => true,
        _ => false,
    }
}

/// The length of the longest of the first `n` rows.
pub open spec fn widest(rows: Seq<Vec<Option<NodeRef>>>, n: int) -> int
    decreases n,
{
    if n <= 0 || n > rows.len() {
        0
    } else {
        let w = widest(rows, n - 1);
        if rows[n - 1]@.len() > w { rows[n - 1]@.len() as int } else { w }
    }
}

/// The number of columns of a grid: the length of its longest row.
pub fn table_column_count(grid: &[Vec<Option<NodeRef>>]) -> (r: usize)
    ensures
        r == widest(grid@, grid@.len() as int),
{
    let mut best: usize = 0;
    let mut i: usize = 0;
    while i < grid.len()
        invariant
            i <= grid@.len(),
            best == widest(grid@, i as int),
        decreases grid@.len() - i,
    {
        let len = grid[i].len();
        if len > best {
            best = len;
        }
        i = i + 1;
    }
    best
}

/// The cell of a grid at `row` and `column`, if there is one.
pub fn table_grid_cell<'a, 'g>(grid: &'g [Vec<Option<NodeRef<'a>>>], row: usize, column: usize) -> (r: Option<&'g NodeRef<'a>>)
    ensures
        r is Some <==> (row < grid@.len() && column < grid@[row as int]@.len() && grid@[row as int]@[column as int] is Some),
        r is Some ==> *r.unwrap() == grid@[row as int]@[column as int].unwrap(),
{
    if row >= grid.len() {
        return None;
    }
    let cells = &grid[row];
    if column >= cells.len() {
        return None;
    }
    match &cells[column] {
        Some(cell) => Some(cell),
        None => None,
    }
}

/// The slot is a data cell.
pub open spec fn is_data_slot(slot: Option<NodeRef>) -> bool {
    slot is Some && data_cell_role(slot.unwrap().state_view().data.role)
}

/// The slot is a selected data cell.
pub open spec fn is_selected_slot(slot: Option<NodeRef>) -> bool {
    is_data_slot(slot) && bool_value(slot.unwrap().state_view().data.prop(PROP_SELECTED)) == Some(true)
}

/// Whether a row of a grid is selected: it has a data cell, and every data
/// cell in it is selected.
pub fn table_row_is_selected(grid: &[Vec<Option<NodeRef>>], row: usize) -> (r: bool)
    ensures
        r == (row < grid@.len()
            && (exists|c: int| 0 <= c < grid@[row as int]@.len() && is_data_slot(#[trigger] grid@[row as int]@[c]))
            && (forall|c: int| 0 <= c < grid@[row as int]@.len() && is_data_slot(#[trigger] grid@[row as int]@[c])
                ==> is_selected_slot(grid@[row as int]@[c]))),
{
    if row >= grid.len() {
        return false;
    }
    let cells = &grid[row];
    let mut any = false;
    let mut c: usize = 0;
    while c < cells.len()
        invariant
            c <= cells@.len(),
            cells@ == grid@[row as int]@,
            any == exists|k: int| 0 <= k < c && is_data_slot(#[trigger] cells@[k]),
            forall|k: int| 0 <= k < c && is_data_slot(#[trigger] cells@[k]) ==> is_selected_slot(cells@[k]),
        decreases cells@.len() - c,
    {
        match &cells[c] {
            Some(cell) => {
                if is_data_cell_role(cell.role()) {
                    any = true;
                    if cell.is_selected() != Some(true) {
                        assert(!is_selected_slot(cells@[c as int]));
                        return false;
                    }
                }
            },
            None => {},
        }
        c = c + 1;
    }
    any
}

/// Whether a column of a grid is selected: it has a data cell, and every
/// data cell in it is selected.
pub fn table_column_is_selected(grid: &[Vec<Option<NodeRef>>], column: usize) -> (r: bool)
    ensures
        r == ((exists|w: int| 0 <= w < grid@.len() && column < grid@[w]@.len() && is_data_slot(#[trigger] grid@[w]@[column as int]))
            && (forall|w: int| 0 <= w < grid@.len() && column < grid@[w]@.len() && is_data_slot(#[trigger] grid@[w]@[column as int])
                ==> is_selected_slot(grid@[w]@[column as int]))),
{
    let mut any = false;
    let mut w: usize = 0;
    while w < grid.len()
        invariant
            w <= grid@.len(),
            any == exists|k: int| 0 <= k < w && column < grid@[k]@.len() && is_data_slot(#[trigger] grid@[k]@[column as int]),
            forall|k: int| 0 <= k < w && column < grid@[k]@.len() && is_data_slot(#[trigger] grid@[k]@[column as int])
                ==> is_selected_slot(grid@[k]@[column as int]),
        decreases grid@.len() - w,
    {
        let cells = &grid[w];
        if column < cells.len() {
            match &cells[column] {
                Some(cell) => {
                    if is_data_cell_role(cell.role()) {
                        any = true;
                        if cell.is_selected() != Some(true) {
                            assert(!is_selected_slot(grid@[w as int]@[column as int]));
                            return false;
                        }
                    }
                },
                None => {},
            }
        }
        w = w + 1;
    }
    any
}

/// The slot holds the node with identifier `id`.
pub open spec fn holds(slot: Option<NodeRef>, id: FullNodeId) -> bool {
    slot is Some && slot.unwrap().id_view() == id
}

/// The row and column of the cell with identifier `id`, the first in
/// row-major order, if the grid holds it.
pub fn find_cell_position(grid: &[Vec<Option<NodeRef>>], id: FullNodeId) -> (r: Option<(usize, usize)>)
    ensures
        r is Some ==> {
            let (i, j) = r.unwrap();
            &&& i < grid@.len()
            &&& j < grid@[i as int]@.len()
            &&& holds(grid@[i as int]@[j as int], id)
            &&& forall|a: int, b: int| 0 <= a < grid@.len() && 0 <= b < grid@[a]@.len()
                && (a < i || (a == i && b < j)) ==> !holds(#[trigger] grid@[a]@[b], id)
        },
        r is None ==> forall|a: int, b: int| 0 <= a < grid@.len() && 0 <= b < grid@[a]@.len()
            ==> !holds(#[trigger] grid@[a]@[b], id),
{
    let mut row: usize = 0;
    while row < grid.len()
        invariant
            row <= grid@.len(),
            forall|a: int, b: int| 0 <= a < row && 0 <= b < grid@[a]@.len() ==> !holds(#[trigger] grid@[a]@[b], id),
        decreases grid@.len() - row,
    {
        let cells = &grid[row];
        let mut column: usize = 0;
        while column < cells.len()
            invariant
                row < grid@.len(),
                cells@ == grid@[row as int]@,
                column <= cells@.len(),
                forall|a: int, b: int| 0 <= a < row && 0 <= b < grid@[a]@.len() ==> !holds(#[trigger] grid@[a]@[b], id),
                forall|b: int| 0 <= b < column ==> !holds(#[trigger] cells@[b], id),
            decreases cells@.len() - column,
        {
            match &cells[column] {
                Some(cell) => {
                    if cell.id() == id {
                        return Some((row, column));
                    }
                },
                None => {},
            }
            column = column + 1;
        }
        row = row + 1;
    }
    None
}

/// The nearest ancestor of `node` that `filter` shows and that is a table,
/// a grid or a list grid; at most as many filtered ancestors up as the tree
/// has nodes.
pub fn find_table_ancestor<'a, F: Fn(&NodeRef<'a>) -> FilterResult>(node: &NodeRef<'a>, filter: &F) -> (r: Option<NodeRef<'a>>)
    requires
        node.wf(),
        filter_total(*filter),
    ensures
        r is Some ==> {
            &&& shown(*filter, r.unwrap())
            &&& r.unwrap().tree() == node.tree()
            &&& (r.unwrap().state_view().data.role == Role::Table || r.unwrap().state_view().data.role == Role::Grid
                || r.unwrap().state_view().data.role == Role::ListGrid)
        },
        forall|g: spec_fn(FullNodeId, NodeStateView) -> FilterResult| decided_by(*filter, node.tree(), g) ==> opt_id(r)
            == table_ancestor(node.tree(), shown_ancestor(node.tree(), node.id_view(), g, node.tree().nodes_view().dom().len()),
                g, node.tree().nodes_view().dom().len()),
{
    let ghost t = node.tree();
    let ghost n = node.tree().nodes_view().dom().len();
    let mut current = crate::filters::filtered_parent(node, filter);
    let mut fuel: usize = node.tree_state().node_count();
    loop
        invariant
            current is Some ==> shown(*filter, current.unwrap()) && current.unwrap().tree() == node.tree(),
            filter_total(*filter),
            t == node.tree(),
            n == t.nodes_view().dom().len(),
            forall|g: spec_fn(FullNodeId, NodeStateView) -> FilterResult| decided_by(*filter, node.tree(), g) ==>
                table_ancestor(t, shown_ancestor(t, node.id_view(), g, n), g, n)
                    == table_ancestor(t, opt_id(current), g, fuel as nat),
        decreases fuel,
    {
        let candidate = match current {
            Some(c) => c,
            None => {
                return None;
            },
        };
        let role = candidate.role();
        if role == Role::Table || role == Role::Grid || role == Role::ListGrid {
            return Some(candidate);
        }
        if fuel == 0 {
            return None;
        }
        fuel = fuel - 1;
        current = crate::filters::filtered_parent(&candidate, filter);
    }
}

/// Starting from the node `start` (if any), the first node, going from
/// shown ancestor to shown ancestor (see [`shown_ancestor`]), that is a
/// table, grid or list grid; at most `fuel` steps up.
pub open spec fn table_ancestor(
    t: TreeState,
    start: Option<FullNodeId>,
    g: spec_fn(FullNodeId, NodeStateView) -> FilterResult,
    fuel: nat,
) -> Option<FullNodeId>
    decreases fuel,
{
    match start {
        None => None,
        Some(c) => {
            let role = t.nodes_view()[crate::ids::node_key(c)].data.role;
            if role == Role::Table || role == Role::Grid || role == Role::ListGrid {
                Some(c)
            } else if fuel == 0 {
                None
            } else {
                table_ancestor(t, shown_ancestor(t, c, g, t.nodes_view().dom().len()), g, (fuel - 1) as nat)
            }
        },
    }
}

/// Every slot of a grid is empty or a shown table cell of tree `t`.
pub open spec fn cells_ok<'a, F: Fn(&NodeRef<'a>) -> FilterResult>(grid: Seq<Vec<Option<NodeRef<'a>>>>, filter: F, t: TreeState) -> bool {
    forall|i: int, j: int| 0 <= i < grid.len() && 0 <= j < grid[i]@.len() && (#[trigger] grid[i]@[j]) is Some ==> {
        &&& shown(filter, grid[i]@[j].unwrap())
        &&& grid[i]@[j].unwrap().tree() == t
        &&& table_cell_role(grid[i]@[j].unwrap().state_view().data.role)
    }
}

/// Every node of a list is a shown row of tree `t`.
pub open spec fn rows_ok<'a, F: Fn(&NodeRef<'a>) -> FilterResult>(nodes: Seq<NodeRef<'a>>, filter: F, t: TreeState) -> bool {
    forall|i: int| 0 <= i < nodes.len() ==> shown(filter, #[trigger] nodes[i]) && nodes[i].tree() == t
        && nodes[i].state_view().data.role == Role::Row
}

/// Every node of a list is a shown table cell of tree `t`.
pub open spec fn cell_list_ok<'a, F: Fn(&NodeRef<'a>) -> FilterResult>(nodes: Seq<NodeRef<'a>>, filter: F, t: TreeState) -> bool {
    forall|i: int| 0 <= i < nodes.len() ==> shown(filter, #[trigger] nodes[i]) && nodes[i].tree() == t
        && table_cell_role(nodes[i].state_view().data.role)
}

/// Collects the rows of a table: its shown children that are rows, and
/// the rows within its shown row groups, at most `depth` levels down. Each
/// list of shown children is walked for at most as many steps as the tree
/// has nodes.
fn collect_table_rows<'a, F: Fn(&NodeRef<'a>) -> FilterResult + Copy>(
    node: &NodeRef<'a>,
    filter: F,
    rows: &mut Vec<NodeRef<'a>>,
    depth: usize,
)
    requires
        node.wf(),
        filter_total(filter),
        rows_ok(old(rows)@, filter, node.tree()),
    ensures
        rows_ok(final(rows)@, filter, node.tree()),
        forall|g: spec_fn(FullNodeId, NodeStateView) -> FilterResult| decided_by(filter, node.tree(), g) ==> node_ids(final(rows)@)
            == node_ids(old(rows)@) + rows_in(node.tree(), g,
                filtered_children_of(node.tree(), g, node.id_view(), node.tree().nodes_view().dom().len()), depth as nat),
    decreases depth,
{
    let mut children = node.filtered_children(filter);
    let ghost t = node.tree();
    let ghost n = t.nodes_view().dom().len();
    let ghost start = node_ids(rows@);
    let ghost mut produced: Seq<FullNodeId> = Seq::empty();
    let mut fuel: usize = node.tree_state().node_count();
    proof {
        assert(node_ids(rows@) == start + Seq::<FullNodeId>::empty());
    }
    loop
        invariant
            t == node.tree(),
            n == t.nodes_view().dom().len(),
            start == node_ids(old(rows)@),
            forall|g: spec_fn(FullNodeId, NodeStateView) -> FilterResult| decided_by(filter, node.tree(), g) ==> {
                &&& node_ids(rows@) == start + rows_in(t, g, produced, depth as nat)
                &&& filtered_children_of(t, g, node.id_view(), n) == produced + shown_children_seq(t, g,
                    children.front_view(), children.back_view(), children.done_view(), fuel as nat)
            },
            children.wf(),
            children.filter_view() == filter,
            children.tree_view() == node.tree(),
            filter_total(filter),
            node.wf(),
            rows_ok(rows@, filter, node.tree()),
        decreases fuel,
    {
        if fuel == 0 {
            proof {
                assert(produced + Seq::<FullNodeId>::empty() == produced);
            }
            return;
        }
        fuel = fuel - 1;
        let ghost before = produced;
        let ghost list0 = node_ids(rows@);
        let child = match children.next() {
            Some(c) => c,
            None => {
                proof {
                    assert(produced + Seq::<FullNodeId>::empty() == produced);
                }
                return;
            },
        };
        proof {
            produced = produced.push(child.id_view());
            assert(produced.drop_last() == before);
            assert(produced.last() == child.id_view());
            assert forall|g: spec_fn(FullNodeId, NodeStateView) -> FilterResult| decided_by(filter, node.tree(), g) implies
                filtered_children_of(t, g, node.id_view(), n) == produced + shown_children_seq(t, g,
                    children.front_view(), children.back_view(), children.done_view(), fuel as nat) by {
                assert(before + (seq![child.id_view()] + shown_children_seq(t, g, children.front_view(), children.back_view(),
                    children.done_view(), fuel as nat)) == produced + shown_children_seq(t, g, children.front_view(),
                    children.back_view(), children.done_view(), fuel as nat));
            }
        }
        match child.role() {
            Role::Row => {
                let ghost before = rows@;
                rows.push(child);
                assert forall|i: int| 0 <= i < rows@.len() implies shown(filter, #[trigger] rows@[i])
                    && rows@[i].tree() == node.tree() && rows@[i].state_view().data.role == Role::Row by {
                    if i < before.len() {
                        assert(rows@[i] == before[i]);
                    }
                }
            },
            Role::RowGroup => {
                if depth > 0 {
                    collect_table_rows(&child, filter, rows, depth - 1);
                }
            },
            _ => {},
        }
        proof {
            assert(child.tree() == t && child.wf());
            assert forall|g: spec_fn(FullNodeId, NodeStateView) -> FilterResult| decided_by(filter, node.tree(), g) implies
                node_ids(rows@) == start + rows_in(t, g, produced, depth as nat) by {
                assert(list0 == start + rows_in(t, g, before, depth as nat));
                let role = child.state_view().data.role;
                if role == Role::Row {
                    assert(node_ids(rows@) == list0.push(child.id_view()));
                } else if role == Role::RowGroup && depth > 0 {
                    assert(node_ids(rows@) == list0 + rows_in(t, g, filtered_children_of(t, g, child.id_view(), n), (depth - 1) as nat));
                } else {
                    assert(node_ids(rows@) == list0);
                }
            }
        }
    }
}

/// Collects the shown table cells below a node, going into every shown
/// child that is not a cell, at most `depth` levels down. Each list of
/// shown children is walked for at most as many steps as the tree has
/// nodes.
fn collect_table_cells<'a, F: Fn(&NodeRef<'a>) -> FilterResult + Copy>(
    node: &NodeRef<'a>,
    filter: F,
    cells: &mut Vec<NodeRef<'a>>,
    depth: usize,
)
    requires
        node.wf(),
        filter_total(filter),
        cell_list_ok(old(cells)@, filter, node.tree()),
    ensures
        cell_list_ok(final(cells)@, filter, node.tree()),
        forall|g: spec_fn(FullNodeId, NodeStateView) -> FilterResult| decided_by(filter, node.tree(), g) ==> node_ids(final(cells)@)
            == node_ids(old(cells)@) + cells_in(node.tree(), g,
                filtered_children_of(node.tree(), g, node.id_view(), node.tree().nodes_view().dom().len()), depth as nat),
    decreases depth,
{
    let mut children = node.filtered_children(filter);
    let ghost t = node.tree();
    let ghost n = t.nodes_view().dom().len();
    let ghost start = node_ids(cells@);
    let ghost mut produced: Seq<FullNodeId> = Seq::empty();
    let mut fuel: usize = node.tree_state().node_count();
    proof {
        assert(node_ids(cells@) == start + Seq::<FullNodeId>::empty());
    }
    loop
        invariant
            t == node.tree(),
            n == t.nodes_view().dom().len(),
            start == node_ids(old(cells)@),
            forall|g: spec_fn(FullNodeId, NodeStateView) -> FilterResult| decided_by(filter, node.tree(), g) ==> {
                &&& node_ids(cells@) == start + cells_in(t, g, produced, depth as nat)
                &&& filtered_children_of(t, g, node.id_view(), n) == produced + shown_children_seq(t, g,
                    children.front_view(), children.back_view(), children.done_view(), fuel as nat)
            },
            children.wf(),
            children.filter_view() == filter,
            children.tree_view() == node.tree(),
            filter_total(filter),
            node.wf(),
            cell_list_ok(cells@, filter, node.tree()),
        decreases fuel,
    {
        if fuel == 0 {
            proof {
                assert(produced + Seq::<FullNodeId>::empty() == produced);
            }
            return;
        }
        fuel = fuel - 1;
        let ghost before = produced;
        let ghost list0 = node_ids(cells@);
        let child = match children.next() {
            Some(c) => c,
            None => {
                proof {
                    assert(produced + Seq::<FullNodeId>::empty() == produced);
                }
                return;
            },
        };
        proof {
            produced = produced.push(child.id_view());
            assert(produced.drop_last() == before);
            assert(produced.last() == child.id_view());
            assert forall|g: spec_fn(FullNodeId, NodeStateView) -> FilterResult| decided_by(filter, node.tree(), g) implies
                filtered_children_of(t, g, node.id_view(), n) == produced + shown_children_seq(t, g,
                    children.front_view(), children.back_view(), children.done_view(), fuel as nat) by {
                assert(before + (seq![child.id_view()] + shown_children_seq(t, g, children.front_view(), children.back_view(),
                    children.done_view(), fuel as nat)) == produced + shown_children_seq(t, g, children.front_view(),
                    children.back_view(), children.done_view(), fuel as nat));
            }
        }
        if is_table_cell_role(child.role()) {
            let ghost before = cells@;
            cells.push(child);
            assert forall|i: int| 0 <= i < cells@.len() implies shown(filter, #[trigger] cells@[i])
                && cells@[i].tree() == node.tree() && table_cell_role(cells@[i].state_view().data.role) by {
                if i < before.len() {
                    assert(cells@[i] == before[i]);
                }
            }
        } else if depth > 0 {
            collect_table_cells(&child, filter, cells, depth - 1);
        }
        proof {
            assert(child.tree() == t && child.wf());
            assert forall|g: spec_fn(FullNodeId, NodeStateView) -> FilterResult| decided_by(filter, node.tree(), g) implies
                node_ids(cells@) == start + cells_in(t, g, produced, depth as nat) by {
                assert(list0 == start + cells_in(t, g, before, depth as nat));
                let role = child.state_view().data.role;
                if table_cell_role(role) {
                    assert(node_ids(cells@) == list0.push(child.id_view()));
                } else if depth > 0 {
                    assert(node_ids(cells@) == list0 + cells_in(t, g, filtered_children_of(t, g, child.id_view(), n), (depth - 1) as nat));
                } else {
                    assert(node_ids(cells@) == list0);
                }
            }
        }
    }
}

/// The rows of a table found among the nodes `cs` of `t`, in order: a row
/// is taken, and a row group is looked into (at most `depth` levels down)
/// through the children that a filter deciding by `g` shows.
pub open spec fn rows_in(
    t: TreeState,
    g: spec_fn(FullNodeId, NodeStateView) -> FilterResult,
    cs: Seq<FullNodeId>,
    depth: nat,
) -> Seq<FullNodeId>
    decreases depth, cs.len(),
{
    if cs.len() == 0 {
        Seq::empty()
    } else {
        let c = cs.last();
        let role = t.nodes_view()[crate::ids::node_key(c)].data.role;
        let rest = rows_in(t, g, cs.drop_last(), depth);
        if role == Role::Row {
            rest.push(c)
        } else if role == Role::RowGroup && depth > 0 {
            rest + rows_in(t, g, filtered_children_of(t, g, c, t.nodes_view().dom().len()), (depth - 1) as nat)
        } else {
            rest
        }
    }
}

/// The table cells found among the nodes `cs` of `t`, in order: a cell is
/// taken, and any other node is looked into (at most `depth` levels down)
/// through the children that a filter deciding by `g` shows.
pub open spec fn cells_in(
    t: TreeState,
    g: spec_fn(FullNodeId, NodeStateView) -> FilterResult,
    cs: Seq<FullNodeId>,
    depth: nat,
) -> Seq<FullNodeId>
    decreases depth, cs.len(),
{
    if cs.len() == 0 {
        Seq::empty()
    } else {
        let c = cs.last();
        let role = t.nodes_view()[crate::ids::node_key(c)].data.role;
        let rest = cells_in(t, g, cs.drop_last(), depth);
        if table_cell_role(role) {
            rest.push(c)
        } else if depth > 0 {
            rest + cells_in(t, g, filtered_children_of(t, g, c, t.nodes_view().dom().len()), (depth - 1) as nat)
        } else {
            rest
        }
    }
}

/// The identifiers of a list of nodes.
pub open spec fn node_ids<'a>(nodes: Seq<NodeRef<'a>>) -> Seq<FullNodeId> {
    nodes.map_values(|n: NodeRef<'a>| n.id_view())
}

/// The identifiers in the slots of a grid.
pub open spec fn grid_ids<'a>(grid: Seq<Vec<Option<NodeRef<'a>>>>) -> Seq<Seq<Option<FullNodeId>>> {
    grid.map_values(|v: Vec<Option<NodeRef<'a>>>| slot_ids(v@))
}

/// `grid` with `c` put at `row` and `column`, grown with empty rows and
/// slots as needed.
pub open spec fn placed(grid: Seq<Seq<Option<FullNodeId>>>, row: int, column: int, c: FullNodeId) -> Seq<Seq<Option<FullNodeId>>> {
    let len = if grid.len() > row { grid.len() as int } else { row + 1 };
    Seq::new(len as nat, |a: int| if a == row {
        let old_row = if row < grid.len() { grid[row] } else { Seq::<Option<FullNodeId>>::empty() };
        let row_len = if old_row.len() > column { old_row.len() as int } else { column + 1 };
        Seq::new(row_len as nat, |b: int| if b == column {
            Some(c)
        } else if b < old_row.len() {
            old_row[b]
        } else {
            None
        })
    } else if a < grid.len() {
        grid[a]
    } else {
        Seq::<Option<FullNodeId>>::empty()
    })
}

/// The grid made by putting each of the cells `cells` of `t`, in order, at
/// its row and column index (cells without both are left out).
pub open spec fn grid_of(t: TreeState, cells: Seq<FullNodeId>) -> Seq<Seq<Option<FullNodeId>>>
    decreases cells.len(),
{
    if cells.len() == 0 {
        Seq::empty()
    } else {
        let rest = grid_of(t, cells.drop_last());
        let data = t.nodes_view()[crate::ids::node_key(cells.last())].data;
        let row = usize_value(data.prop(PROP_TABLE_CELL_ROW_INDEX));
        let column = usize_value(data.prop(PROP_TABLE_CELL_COLUMN_INDEX));
        if row is Some && column is Some {
            placed(rest, row.unwrap() as int, column.unwrap() as int, cells.last())
        } else {
            rest
        }
    }
}

/// Of the nodes `ids` of `t`, in order, those that are table cells.
pub open spec fn cell_slots(t: TreeState, ids: Seq<FullNodeId>) -> Seq<Option<FullNodeId>>
    decreases ids.len(),
{
    if ids.len() == 0 {
        Seq::empty()
    } else {
        let rest = cell_slots(t, ids.drop_last());
        if table_cell_role(t.nodes_view()[crate::ids::node_key(ids.last())].data.role) {
            rest.push(Some(ids.last()))
        } else {
            rest
        }
    }
}

/// The identifiers of the nodes in slots.
pub open spec fn slot_ids<'a>(slots: Seq<Option<NodeRef<'a>>>) -> Seq<Option<FullNodeId>> {
    slots.map_values(|o: Option<NodeRef<'a>>| opt_id(o))
}

/// The shown table cells among the shown children of a row, in order.
fn row_cells<'a, F: Fn(&NodeRef<'a>) -> FilterResult + Copy>(row: &NodeRef<'a>, filter: F) -> (r: Vec<Option<NodeRef<'a>>>)
    requires
        row.wf(),
        filter_total(filter),
    ensures
        forall|j: int| 0 <= j < r@.len() ==> (#[trigger] r@[j]) is Some && shown(filter, r@[j].unwrap())
            && r@[j].unwrap().tree() == row.tree() && table_cell_role(r@[j].unwrap().state_view().data.role),
        forall|g: spec_fn(FullNodeId, NodeStateView) -> FilterResult| decided_by(filter, row.tree(), g) ==> slot_ids(r@)
            == cell_slots(row.tree(), filtered_children_of(row.tree(), g, row.id_view(), row.tree().nodes_view().dom().len())),
{
    let mut out: Vec<Option<NodeRef<'a>>> = Vec::new();
    let mut children = row.filtered_children(filter);
    let ghost t = row.tree();
    let ghost n = t.nodes_view().dom().len();
    let ghost mut produced: Seq<FullNodeId> = Seq::empty();
    let mut fuel: usize = row.tree_state().node_count();
    proof {
        assert(slot_ids(out@) == cell_slots(t, produced));
    }
    loop
        invariant
            children.wf(),
            children.filter_view() == filter,
            children.tree_view() == row.tree(),
            filter_total(filter),
            t == row.tree(),
            n == t.nodes_view().dom().len(),
            forall|j: int| 0 <= j < out@.len() ==> (#[trigger] out@[j]) is Some && shown(filter, out@[j].unwrap())
                && out@[j].unwrap().tree() == row.tree() && table_cell_role(out@[j].unwrap().state_view().data.role),
            slot_ids(out@) == cell_slots(t, produced),
            forall|g: spec_fn(FullNodeId, NodeStateView) -> FilterResult| decided_by(filter, row.tree(), g) ==>
                filtered_children_of(t, g, row.id_view(), n) == produced + shown_children_seq(t, g,
                    children.front_view(), children.back_view(), children.done_view(), fuel as nat),
        decreases fuel,
    {
        if fuel == 0 {
            proof {
                assert(produced + Seq::<FullNodeId>::empty() == produced);
            }
            return out;
        }
        fuel = fuel - 1;
        let ghost before = produced;
        let ghost out0 = out@;
        let cell = match children.next() {
            Some(c) => c,
            None => {
                proof {
                    assert(produced + Seq::<FullNodeId>::empty() == produced);
                }
                return out;
            },
        };
        proof {
            produced = produced.push(cell.id_view());
            assert(produced.drop_last() == before);
            assert forall|g: spec_fn(FullNodeId, NodeStateView) -> FilterResult| decided_by(filter, row.tree(), g) implies
                filtered_children_of(t, g, row.id_view(), n) == produced + shown_children_seq(t, g,
                    children.front_view(), children.back_view(), children.done_view(), fuel as nat) by {
                assert(before + (seq![cell.id_view()] + shown_children_seq(t, g, children.front_view(), children.back_view(),
                    children.done_view(), fuel as nat)) == produced + shown_children_seq(t, g, children.front_view(),
                    children.back_view(), children.done_view(), fuel as nat));
            }
        }
        if is_table_cell_role(cell.role()) {
            out.push(Some(cell));
            proof {
                assert(slot_ids(out@) == slot_ids(out0).push(Some(cell.id_view())));
            }
        }
    }
}

/// The grid of a table, `grid[row][column]`: from the table's shown rows
/// (directly or within row groups), each row's shown cells in order; or,
/// if the table has no rows, from the shown cells below it, each placed by
/// its row and column index (cells without both are left out). Every slot
/// of the grid is empty or a shown table cell of the table's tree.
pub fn table_grid<'a, F: Fn(&NodeRef<'a>) -> FilterResult + Copy>(table: &NodeRef<'a>, filter: F) -> (r: Vec<Vec<Option<NodeRef<'a>>>>)
    requires
        table.wf(),
        filter_total(filter),
    ensures
        cells_ok(r@, filter, table.tree()),
        forall|g: spec_fn(FullNodeId, NodeStateView) -> FilterResult| decided_by(filter, table.tree(), g) ==> grid_ids(r@)
            == table_grid_of(table.tree(), g, table.id_view()),
{
    let depth = table.tree_state().node_count();
    let ghost t = table.tree();
    let ghost n = t.nodes_view().dom().len();
    let mut rows: Vec<NodeRef<'a>> = Vec::new();
    collect_table_rows(table, filter, &mut rows, depth);
    proof {
        assert(node_ids(Seq::<NodeRef<'a>>::empty()) =~= Seq::<FullNodeId>::empty());
    }
    if rows.len() > 0 {
        let mut grid: Vec<Vec<Option<NodeRef<'a>>>> = Vec::new();
        let mut i: usize = 0;
        while i < rows.len()
            invariant
                i <= rows@.len(),
                rows_ok(rows@, filter, table.tree()),
                filter_total(filter),
                cells_ok(grid@, filter, table.tree()),
                t == table.tree(),
                n == t.nodes_view().dom().len(),
                grid@.len() == i,
                forall|g: spec_fn(FullNodeId, NodeStateView) -> FilterResult, w: int|
                    #![trigger decided_by(filter, table.tree(), g), grid_ids(grid@)[w]]
                    decided_by(filter, table.tree(), g) && 0 <= w < i ==>
                    grid_ids(grid@)[w] == cell_slots(t, filtered_children_of(t, g, rows@[w].id_view(), n)),
            decreases rows@.len() - i,
        {
            let row = rows[i];
            assert(shown(filter, rows@[i as int]));
            let cells = row_cells(&row, filter);
            let ghost before = grid@;
            grid.push(cells);
            proof {
                assert forall|g: spec_fn(FullNodeId, NodeStateView) -> FilterResult, w: int|
                    #![trigger decided_by(filter, table.tree(), g), grid_ids(grid@)[w]]
                    decided_by(filter, table.tree(), g) && 0 <= w < i + 1 implies
                    grid_ids(grid@)[w] == cell_slots(t, filtered_children_of(t, g, rows@[w].id_view(), n)) by {
                    if w < i {
                        assert(grid@[w] == before[w]);
                        assert(grid_ids(grid@)[w] == grid_ids(before)[w]);
                    } else {
                        assert(grid@[w]@ == cells@);
                    }
                }
            }
            assert forall|a: int, b: int| 0 <= a < grid@.len() && 0 <= b < grid@[a]@.len() && (#[trigger] grid@[a]@[b]) is Some implies {
                &&& shown(filter, grid@[a]@[b].unwrap())
                &&& grid@[a]@[b].unwrap().tree() == table.tree()
                &&& table_cell_role(grid@[a]@[b].unwrap().state_view().data.role)
            } by {
                if a < before.len() {
                    assert(grid@[a] == before[a]);
                } else {
                    assert(grid@[a]@ == cells@);
                    assert(cells@[b] is Some);
                }
            }
            i = i + 1;
        }
        proof {
            assert forall|g: spec_fn(FullNodeId, NodeStateView) -> FilterResult| decided_by(filter, table.tree(), g) implies grid_ids(grid@)
                == table_grid_of(t, g, table.id_view()) by {
                let rs = rows_in(t, g, filtered_children_of(t, g, table.id_view(), n), n);
                assert(node_ids(rows@) == rs);
                assert(grid_ids(grid@) =~= rs.map_values(|row: FullNodeId| cell_slots(t, filtered_children_of(t, g, row, n))));
            }
        }
        return grid;
    }
    let mut cells: Vec<NodeRef<'a>> = Vec::new();
    collect_table_cells(table, filter, &mut cells, depth);
    let mut grid: Vec<Vec<Option<NodeRef<'a>>>> = Vec::new();
    let mut k: usize = 0;
    proof {
        assert(node_ids(cells@).take(0) =~= Seq::<FullNodeId>::empty());
        assert(grid_ids(grid@) =~= Seq::<Seq<Option<FullNodeId>>>::empty());
    }
    while k < cells.len()
        invariant
            k <= cells@.len(),
            cell_list_ok(cells@, filter, table.tree()),
            cells_ok(grid@, filter, table.tree()),
            t == table.tree(),
            grid_ids(grid@) == grid_of(t, node_ids(cells@).take(k as int)),
        decreases cells@.len() - k,
    {
        let cell = cells[k];
        assert(shown(filter, cells@[k as int]));
        proof {
            assert(node_ids(cells@).take(k as int + 1).drop_last() == node_ids(cells@).take(k as int));
            assert(node_ids(cells@).take(k as int + 1).last() == cell.id_view());
            assert(cell.wf() && cell.tree() == t);
        }
        k = k + 1;
        let row = match cell.data().table_cell_row_index() {
            Some(r) => r,
            None => {
                continue;
            },
        };
        let column = match cell.data().table_cell_column_index() {
            Some(c) => c,
            None => {
                continue;
            },
        };
        place_cell(&mut grid, row, column, cell, filter, Ghost(table.tree()));
    }
    proof {
        assert(node_ids(cells@).take(cells@.len() as int) == node_ids(cells@));
        assert forall|g: spec_fn(FullNodeId, NodeStateView) -> FilterResult| decided_by(filter, table.tree(), g) implies grid_ids(grid@)
            == table_grid_of(t, g, table.id_view()) by {
            assert(node_ids(rows@) == rows_in(t, g, filtered_children_of(t, g, table.id_view(), n), n));
            assert(node_ids(cells@) == cells_in(t, g, filtered_children_of(t, g, table.id_view(), n), n));
        }
    }
    grid
}

/// The grid of the table `id` of `t` under a filter deciding by `g`: from
/// its rows (see [`rows_in`]), each row's shown cells in order; or, if it
/// has no rows, from its cells (see [`cells_in`]), each placed by its row
/// and column index.
pub open spec fn table_grid_of(
    t: TreeState,
    g: spec_fn(FullNodeId, NodeStateView) -> FilterResult,
    id: FullNodeId,
) -> Seq<Seq<Option<FullNodeId>>> {
    let n = t.nodes_view().dom().len();
    let cs = filtered_children_of(t, g, id, n);
    let rs = rows_in(t, g, cs, n);
    if rs.len() > 0 {
        rs.map_values(|row: FullNodeId| cell_slots(t, filtered_children_of(t, g, row, n)))
    } else {
        grid_of(t, cells_in(t, g, cs, n))
    }
}

/// Puts `cell` at `row` and `column` of the grid, growing it as needed.
fn place_cell<'a, F: Fn(&NodeRef<'a>) -> FilterResult>(
    grid: &mut Vec<Vec<Option<NodeRef<'a>>>>,
    row: usize,
    column: usize,
    cell: NodeRef<'a>,
    filter: F,
    Ghost(t): Ghost<TreeState>,
)
    requires
        cells_ok(old(grid)@, filter, t),
        shown(filter, cell),
        cell.tree() == t,
        table_cell_role(cell.state_view().data.role),
    ensures
        cells_ok(final(grid)@, filter, t),
        final(grid)@.len() == if old(grid)@.len() > row { old(grid)@.len() as int } else { row + 1 },
        final(grid)@[row as int]@.len() == if row < old(grid)@.len() && old(grid)@[row as int]@.len() > column {
            old(grid)@[row as int]@.len() as int
        } else {
            column + 1
        },
        final(grid)@[row as int]@[column as int] == Some(cell),
        forall|a: int| 0 <= a < final(grid)@.len() && a != row ==> (#[trigger] final(grid)@[a])@ == if a < old(grid)@.len() {
            old(grid)@[a]@
        } else {
            Seq::<Option<NodeRef<'a>>>::empty()
        },
        forall|b: int| 0 <= b < final(grid)@[row as int]@.len() && b != column ==> (#[trigger] final(grid)@[row as int]@[b])
            == if row < old(grid)@.len() && b < old(grid)@[row as int]@.len() {
                old(grid)@[row as int]@[b]
            } else {
                None
            },
        grid_ids(final(grid)@) == placed(grid_ids(old(grid)@), row as int, column as int, cell.id_view()),
{
    let ghost g_in = grid@;
    while grid.len() <= row
        invariant
            cells_ok(grid@, filter, t),
            grid@.len() >= g_in.len(),
            grid@.len() <= if g_in.len() > row { g_in.len() as int } else { row + 1 },
            forall|a: int| 0 <= a < grid@.len() ==> (#[trigger] grid@[a])@ == if a < g_in.len() {
                g_in[a]@
            } else {
                Seq::<Option<NodeRef<'a>>>::empty()
            },
        decreases row + 1 - grid@.len(),
    {
        let ghost before = grid@;
        grid.push(Vec::new());
        assert forall|a: int, b: int| 0 <= a < grid@.len() && 0 <= b < grid@[a]@.len() && (#[trigger] grid@[a]@[b]) is Some implies {
            &&& shown(filter, grid@[a]@[b].unwrap())
            &&& grid@[a]@[b].unwrap().tree() == t
            &&& table_cell_role(grid@[a]@[b].unwrap().state_view().data.role)
        } by {
            if a < before.len() {
                assert(grid@[a] == before[a]);
            }
        }
    }
    let ghost g0 = grid@;
    let mut slots = grid.remove(row);
    assert forall|j: int| 0 <= j < slots@.len() && (#[trigger] slots@[j]) is Some implies
        shown(filter, slots@[j].unwrap()) && slots@[j].unwrap().tree() == t
        && table_cell_role(slots@[j].unwrap().state_view().data.role) by {
        assert(g0[row as int]@[j] == slots@[j]);
    }
    let ghost s_in = slots@;
    while slots.len() <= column
        invariant
            forall|j: int| 0 <= j < slots@.len() && (#[trigger] slots@[j]) is Some ==>
                shown(filter, slots@[j].unwrap()) && slots@[j].unwrap().tree() == t
                && table_cell_role(slots@[j].unwrap().state_view().data.role),
            slots@.len() >= s_in.len(),
            slots@.len() <= if s_in.len() > column { s_in.len() as int } else { column + 1 },
            forall|j: int| 0 <= j < slots@.len() ==> (#[trigger] slots@[j]) == if j < s_in.len() { s_in[j] } else { None },
        decreases column + 1 - slots@.len(),
    {
        slots.push(None);
    }
    slots.set(column, Some(cell));
    let ghost g1 = grid@;
    grid.insert(row, slots);
    assert forall|a: int, b: int| 0 <= a < grid@.len() && 0 <= b < grid@[a]@.len() && (#[trigger] grid@[a]@[b]) is Some implies {
        &&& shown(filter, grid@[a]@[b].unwrap())
        &&& grid@[a]@[b].unwrap().tree() == t
        &&& table_cell_role(grid@[a]@[b].unwrap().state_view().data.role)
    } by {
        if a < row {
            assert(grid@[a] == g0[a]);
        } else if a > row {
            assert(grid@[a] == g0[a]);
        } else {
            assert(grid@[a]@ == slots@);
        }
    }
    proof {
        let gg = grid_ids(grid@);
        let pp = placed(grid_ids(g_in), row as int, column as int, cell.id_view());
        assert(gg.len() == pp.len());
        assert forall|a: int| 0 <= a < gg.len() implies gg[a] =~= pp[a] by {
            if a == row {
                assert forall|b: int| 0 <= b < gg[a].len() implies gg[a][b] == pp[a][b] by {
                    if b != column {
                        assert(grid@[a]@[b] == (if row < g_in.len() && b < g_in[row as int]@.len() {
                            g_in[row as int]@[b]
                        } else {
                            None
                        }));
                    }
                }
            }
        }
        assert(gg =~= pp);
    }
}

} // verus!
