# accesskit (verified core)

The accessibility tree model of AccessKit, written in Verus: the schema that
UI toolkits use to describe their widgets, and the consumer-side tree that a
platform adapter keeps up to date from incremental updates.

Layout of `src/`:

- `roles.rs` — roles, actions, flags and the small enumerations that node
  properties take; action and flag masks with their bit-level facts.
- `schema.rs` — nodes (role, actions, flags and a property table), the
  builder that makes them with shared node classes, tree data and tree
  updates.
- `ids.rs` — node identifiers across the root tree and grafted subtrees,
  and what the consumer stores per node.
- `maps.rs` — the `hashbrown` tables the consumer keeps, each with the
  contract it is trusted to meet.
- `tree.rs` — the consumer tree: applying an update (with the laws it
  keeps), following the focus through graft nodes, reporting changes to a
  handler, and the queries on a tree state.
- `node.rs`, `iterators.rs`, `filters.rs` — reading a node, walking its
  siblings and children, and the filters that decide what a platform shows.
- `text.rs` — positions in the text of inline text boxes: word, line and
  paragraph boundaries, and how a position is taken across box boundaries.
- `ranges.rs` — positions and ranges in the text of a node: moving by
  character, word, line, paragraph and document, ordering positions,
  reading a range's text, and the stored form of a range.
- `table.rs` — the grid of rows and cells of a table, and selection by row
  and column.

Tests are under `tests/`.

## Node classes

`NodeClassSet` keeps its classes in a `Vec` and finds a class by a linear
scan. A class is a role, an action word and a sequence of property indices;
such a value is not an integer, and an ordered set over it would rest on a
derived `Ord` that Verus does not read, so the set is a sequence of the
classes in the order they were first added; a class is added only when the
scan does not find it.

## Change notifications

`Tree::notifications` computes, with an exact contract, the calls a change
handler receives for an update; `update_and_process_changes` hands exactly
those calls to the handler, in order.
