use accesskit::filters::common_filter;
use accesskit::ids::{FullNodeId, TreeIndex};
use accesskit::roles::Role;
use accesskit::schema::{Node, NodeBuilder, NodeClassSet, NodeId, Tree as TreeInfo, TreeId, TreeUpdate};
use accesskit::table::{
    find_cell_position, find_table_ancestor, is_data_cell_role, is_table_cell_role, table_column_count,
    table_column_is_selected, table_grid, table_grid_cell, table_row_is_selected,
};
use accesskit::tree::Tree;

fn nid(n: u64) -> FullNodeId {
    FullNodeId::new(NodeId(n), TreeIndex(0))
}

fn with_children(role: Role, children: &[u64]) -> Node {
    let mut b = NodeBuilder::new(role);
    b.set_children(children.iter().map(|c| NodeId(*c)).collect());
    b.build(&mut NodeClassSet::new())
}

fn cell(selected: Option<bool>) -> Node {
    let mut b = NodeBuilder::new(Role::Cell);
    if let Some(s) = selected {
        b.set_selected(s);
    }
    b.build(&mut NodeClassSet::new())
}

fn placed_cell(row: usize, column: usize) -> Node {
    let mut b = NodeBuilder::new(Role::Cell);
    b.set_table_cell_row_index(row);
    b.set_table_cell_column_index(column);
    b.build(&mut NodeClassSet::new())
}

fn update(nodes: Vec<(NodeId, Node)>) -> TreeUpdate {
    TreeUpdate { nodes, tree: Some(TreeInfo::new(NodeId(0))), tree_id: TreeId::root(), focus: NodeId(0) }
}

// Table 1 with a header row 2 (cells 3, 4) and, in row group 5, row 6
// (cells 7, 8) and row 9 (cell 10).
fn row_table() -> Tree {
    let mut header = NodeBuilder::new(Role::ColumnHeader);
    header.set_name("A".to_string());
    let header = header.build(&mut NodeClassSet::new());
    Tree::new(
        update(vec![
            (NodeId(0), with_children(Role::Window, &[1])),
            (NodeId(1), with_children(Role::Table, &[2, 5])),
            (NodeId(2), with_children(Role::Row, &[3, 4])),
            (NodeId(3), header),
            (NodeId(4), with_children(Role::ColumnHeader, &[])),
            (NodeId(5), with_children(Role::RowGroup, &[6, 9])),
            (NodeId(6), with_children(Role::Row, &[7, 8])),
            (NodeId(7), cell(Some(true))),
            (NodeId(8), cell(Some(true))),
            (NodeId(9), with_children(Role::Row, &[10])),
            (NodeId(10), cell(Some(false))),
        ]),
        false,
    )
    .unwrap()
}

#[test]
fn cell_roles() {
    assert!(is_table_cell_role(Role::Cell));
    assert!(is_table_cell_role(Role::RowHeader));
    assert!(!is_table_cell_role(Role::Row));
    assert!(is_data_cell_role(Role::GridCell));
    assert!(!is_data_cell_role(Role::ColumnHeader));
}

#[test]
fn grid_from_rows() {
    let tree = row_table();
    let table = tree.state().node_by_id(nid(1)).unwrap();
    let grid = table_grid(&table, common_filter);
    let ids: Vec<Vec<u64>> =
        grid.iter().map(|row| row.iter().map(|c| c.unwrap().id().local.0).collect()).collect();
    assert_eq!(ids, vec![vec![3, 4], vec![7, 8], vec![10]]);
    assert_eq!(table_column_count(&grid), 2);
    assert_eq!(table_grid_cell(&grid, 1, 1).unwrap().id(), nid(8));
    assert!(table_grid_cell(&grid, 2, 1).is_none());
    assert!(table_grid_cell(&grid, 7, 0).is_none());
    assert_eq!(find_cell_position(&grid, nid(10)), Some((2, 0)));
    assert_eq!(find_cell_position(&grid, nid(6)), None);
}

#[test]
fn row_and_column_selection() {
    let tree = row_table();
    let table = tree.state().node_by_id(nid(1)).unwrap();
    let grid = table_grid(&table, common_filter);
    assert!(!table_row_is_selected(&grid, 0));
    assert!(table_row_is_selected(&grid, 1));
    assert!(!table_row_is_selected(&grid, 2));
    assert!(!table_row_is_selected(&grid, 5));
    assert!(!table_column_is_selected(&grid, 0));
    assert!(table_column_is_selected(&grid, 1));
    assert!(!table_column_is_selected(&grid, 4));
}

#[test]
fn grid_from_cell_indices() {
    let tree = Tree::new(
        update(vec![
            (NodeId(0), with_children(Role::Window, &[1])),
            (NodeId(1), with_children(Role::Grid, &[2])),
            (NodeId(2), with_children(Role::GenericContainer, &[3, 4, 5])),
            (NodeId(3), placed_cell(1, 2)),
            (NodeId(4), placed_cell(0, 0)),
            (NodeId(5), cell(None)),
        ]),
        false,
    )
    .unwrap();
    let table = tree.state().node_by_id(nid(1)).unwrap();
    let grid = table_grid(&table, common_filter);
    assert_eq!(grid.len(), 2);
    assert_eq!(grid[0].len(), 1);
    assert_eq!(grid[0][0].unwrap().id(), nid(4));
    assert_eq!(grid[1].len(), 3);
    assert!(grid[1][0].is_none());
    assert!(grid[1][1].is_none());
    assert_eq!(grid[1][2].unwrap().id(), nid(3));
    assert_eq!(table_column_count(&grid), 3);
}

#[test]
fn table_ancestor_of_a_cell() {
    let tree = row_table();
    let state = tree.state();
    let c = state.node_by_id(nid(7)).unwrap();
    assert_eq!(find_table_ancestor(&c, &common_filter).unwrap().id(), nid(1));
    assert!(find_table_ancestor(&state.root(), &common_filter).is_none());
}

// Window 0 with table 1: header row 2 (column headers 3 "Name", 4 "Status")
// and data row 5 (cell 6 "a", not selected; cell 7 "done", selected).
fn status_table() -> Tree {
    let header = |name: &str| {
        let mut b = NodeBuilder::new(Role::ColumnHeader);
        b.set_name(name.to_string());
        b.build(&mut NodeClassSet::new())
    };
    let named_cell = |name: &str, selected: bool| {
        let mut b = NodeBuilder::new(Role::Cell);
        b.set_name(name.to_string());
        b.set_selected(selected);
        b.build(&mut NodeClassSet::new())
    };
    Tree::new(
        update(vec![
            (NodeId(0), with_children(Role::Window, &[1])),
            (NodeId(1), with_children(Role::Table, &[2, 5])),
            (NodeId(2), with_children(Role::Row, &[3, 4])),
            (NodeId(3), header("Name")),
            (NodeId(4), header("Status")),
            (NodeId(5), with_children(Role::Row, &[6, 7])),
            (NodeId(6), named_cell("a", false)),
            (NodeId(7), named_cell("done", true)),
        ]),
        false,
    )
    .unwrap()
}

#[test]
fn n_rows_and_n_columns_match_the_tree() {
    let tree = status_table();
    let table = tree.state().node_by_id(nid(1)).unwrap();
    let grid = table_grid(&table, common_filter);
    assert_eq!(grid.len(), 2);
    assert_eq!(table_column_count(&grid), 2);
}

#[test]
fn get_accessible_at_returns_the_real_cell_address() {
    let tree = status_table();
    let table = tree.state().node_by_id(nid(1)).unwrap();
    let data_row = tree.state().root().children()[0].children()[1];
    let cell_done = data_row.children()[1];
    let grid = table_grid(&table, common_filter);
    assert_eq!(table_grid_cell(&grid, 1, 1).unwrap().id(), cell_done.id());
    assert_eq!(cell_done.id(), nid(7));
}

#[test]
fn is_selected_reflects_live_cell_state() {
    let tree = status_table();
    let table = tree.state().node_by_id(nid(1)).unwrap();
    let grid = table_grid(&table, common_filter);
    let selected = |row: usize, column: usize| table_grid_cell(&grid, row, column).unwrap().is_selected() == Some(true);
    assert!(selected(1, 1));
    assert!(!selected(1, 0));
}
