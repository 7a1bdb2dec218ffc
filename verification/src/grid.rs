//! The grid that the demo shows: a header above rows of cells.

use crate::layout::{
    form_tree, law_building_keeps_tree, law_layout_is_tree, lemma_position_is_unique, position,
    starts_at, Builder, Layout, Node, NodeId, Rect,
};
use taffy::Style;
use vstd::prelude::*;

verus! {

/// How many rows the grid has.
pub const ROWS: usize = 3;

/// How many cells a row has.
pub const COLS: usize = 4;

/// How many cells of a row have a width of their own. The last cell of a row
/// takes what is left.
pub const ANIM_COLS: usize = 3;

/// What a node of the grid stands for.
#[derive(Clone, Copy, Debug, PartialEq, Eq, Structural)]
pub enum GridNode {
    Root,
    Header,
    Row { row: usize },
    /// A cell with a width of its own.
    Cell { row: usize, col: usize },
    /// The cell at the end of a row, which takes what is left of it.
    LastCell { row: usize },
}

/// What the node of a cell stands for.
pub open spec fn cell_place(row: usize, col: usize) -> GridNode {
    if col < ANIM_COLS {
        GridNode::Cell { row, col }
    } else {
        GridNode::LastCell { row }
    }
}

/// Whether the node at position `at` hangs under the node at position `parent`
/// and is one that `make` makes for its place in the grid.
pub open spec fn is_made<T, N: Fn(GridNode) -> (Style, T)>(
    make: N,
    place: GridNode,
    nodes: Seq<Node<T>>,
    at: int,
    parent: int,
) -> bool {
    &&& nodes[at].parent == parent
    &&& make.ensures((place,), (nodes[at].style, nodes[at].data))
}

/// Whether the cells of a row were added to `before`, under the node at
/// position `parent`.
pub open spec fn is_row<T, N: Fn(GridNode) -> (Style, T)>(
    make: N,
    row: usize,
    before: Seq<Node<T>>,
    parent: int,
    after: Seq<Node<T>>,
    cells: Seq<NodeId>,
) -> bool {
    &&& after.len() == before.len() + COLS
    &&& before.is_prefix_of(after)
    &&& cells.len() == COLS
    &&& forall|col: usize|
        0 <= col < COLS ==> {
            let at = before.len() + col;
            &&& #[trigger] cells[col as int] == after[at].id
            &&& is_made(make, cell_place(row, col), after, at, parent)
        }
}

fn build_row<T, N: Fn(GridNode) -> (Style, T)>(
    builder: &mut Builder<T>,
    make: &N,
    row: usize,
) -> (cells: Vec<NodeId>)
    requires
        old(builder).wf(),
        old(builder).nodes().len() < 1000,
        forall|place: GridNode| #[trigger] make.requires((place,)),
    ensures
        final(builder).wf(),
        final(builder).parent() == old(builder).parent(),
        is_row(
            *make,
            row,
            old(builder).nodes(),
            position(old(builder).nodes(), old(builder).parent()),
            final(builder).nodes(),
            cells@,
        ),
{
    let ghost before = builder.nodes();
    let ghost parent = position(before, builder.parent());
    proof {
        law_building_keeps_tree(*builder);
    }
    let mut cells: Vec<NodeId> = Vec::new();
    let mut col: usize = 0;
    while col < COLS
        invariant
            col <= COLS,
            builder.wf(),
            builder.parent() == old(builder).parent(),
            before.len() < 1000,
            builder.nodes().len() == before.len() + col,
            before.is_prefix_of(builder.nodes()),
            0 <= parent < before.len(),
            before[parent].id == builder.parent(),
            cells@.len() == col,
            forall|c: usize|
                0 <= c < col ==> {
                    let at = before.len() + c;
                    &&& #[trigger] cells@[c as int] == builder.nodes()[at].id
                    &&& is_made(*make, cell_place(row, c), builder.nodes(), at, parent)
                },
            forall|place: GridNode| #[trigger] make.requires((place,)),
        decreases COLS - col,
    {
        proof {
            law_building_keeps_tree(*builder);
            lemma_position_is_unique(builder.nodes(), parent);
        }
        let (style, data) = if col < ANIM_COLS {
            make(GridNode::Cell { row, col })
        } else {
            make(GridNode::LastCell { row })
        };
        cells.push(builder.leaf(style, data));
        col += 1;
    }
    cells
}

/// The position of a cell in the list of all cells.
pub open spec fn spec_flat_index(row: usize, col: usize) -> int {
    row * COLS + col
}

/// The position of a cell in the list of all cells.
pub fn flat_index(row: usize, col: usize) -> (flat: usize)
    requires
        row < ROWS,
        col < COLS,
    ensures
        flat == spec_flat_index(row, col),
        flat < ROWS * COLS,
{
    proof {
        lemma_flat_index(row, col);
    }
    row * COLS + col
}

/// The row and the column of the cell at a position in the list of all cells.
pub fn cell_at(flat: usize) -> (cell: (usize, usize))
    requires
        flat < ROWS * COLS,
    ensures
        cell == (flat / COLS, flat % COLS),
        cell.0 < ROWS,
        cell.1 < COLS,
{
    (flat / COLS, flat % COLS)
}

/// A row takes up as many positions as it has cells.
proof fn lemma_flat_index(row: usize, col: usize)
    ensures
        spec_flat_index(row, col) == 4 * row + col,
{
    assert(row * COLS == 4 * row) by (nonlinear_arith);
}

/// Every cell has a position of its own: the position of a cell leads back to
/// the cell, and the cell at a position to the position.
pub proof fn law_cells_and_positions(row: usize, col: usize, flat: usize)
    requires
        row < ROWS,
        col < COLS,
        flat < ROWS * COLS,
    ensures
        0 <= spec_flat_index(row, col) < ROWS * COLS,
        spec_flat_index(row, col) / COLS as int == row,
        spec_flat_index(row, col) % COLS as int == col,
        spec_flat_index(flat / COLS, flat % COLS) == flat,
{
    lemma_flat_index(row, col);
    lemma_flat_index(flat / COLS, flat % COLS);
}

/// The position of a row among the nodes of the grid.
pub open spec fn row_position(row: int) -> int {
    2 + row * (COLS + 1)
}

/// Whether the first `rows` rows of a grid are there, below the root and the
/// header.
pub open spec fn has_rows<T, N: Fn(GridNode) -> (Style, T)>(
    make: N,
    rows: int,
    nodes: Seq<Node<T>>,
    cells: Seq<NodeId>,
) -> bool {
    &&& cells.len() == rows * COLS
    &&& nodes.len() == row_position(rows)
    &&& forall|row: usize|
        #![trigger row_position(row as int)]
        0 <= row < rows ==> is_made(make, GridNode::Row { row }, nodes, row_position(row as int), 0)
    &&& forall|row: usize, col: usize|
        0 <= row < rows && 0 <= col < COLS ==> {
            let at = row_position(row as int) + 1 + col;
            &&& cells[#[trigger] spec_flat_index(row, col)] == nodes[at].id
            &&& is_made(
                make,
                cell_place(row, col),
                nodes,
                at,
                row_position(row as int),
            )
        }
}

/// Whether nodes are those of the grid: the root, under it the header and the
/// rows, and under each row its cells, all as `make` makes them.
pub open spec fn is_grid<T, N: Fn(GridNode) -> (Style, T)>(
    make: N,
    nodes: Seq<Node<T>>,
    header: NodeId,
    cells: Seq<NodeId>,
) -> bool {
    &&& is_made(make, GridNode::Root, nodes, 0, -1)
    &&& is_made(make, GridNode::Header, nodes, 1, 0)
    &&& nodes[1].id == header
    &&& has_rows(make, ROWS as int, nodes, cells)
}

/// Adds a row and its cells under the root, behind all other nodes.
fn add_row<T, N: Fn(GridNode) -> (Style, T)>(
    builder: &mut Builder<T>,
    make: &N,
    row: usize,
) -> (cells: Vec<NodeId>)
    requires
        old(builder).wf(),
        old(builder).nodes().len() < 100,
        old(builder).nodes()[0].id == old(builder).parent(),
        forall|place: GridNode| #[trigger] make.requires((place,)),
    ensures
        final(builder).wf(),
        final(builder).parent() == old(builder).parent(),
        old(builder).nodes().is_prefix_of(final(builder).nodes()),
        old(builder).nodes().len() < final(builder).nodes().len(),
        is_made(
            *make,
            GridNode::Row { row },
            final(builder).nodes(),
            old(builder).nodes().len() as int,
            0,
        ),
        is_row(
            *make,
            row,
            final(builder).nodes().take(old(builder).nodes().len() as int + 1),
            old(builder).nodes().len() as int,
            final(builder).nodes(),
            cells@,
        ),
{
    let ghost before = builder.nodes();
    proof {
        law_building_keeps_tree(*builder);
        lemma_position_is_unique(before, 0);
    }
    let (style, data) = make(GridNode::Row { row });
    let ghost row_node = Node { id: NodeId { raw: 0 }, parent: 0, style, data };
    let build = |b: &mut Builder<T>| -> (ids: Vec<NodeId>)
        requires
            b.wf(),
            b.nodes().len() < 1000,
        ensures
            final(b).wf(),
            final(b).parent() == old(b).parent(),
            is_row(
                *make,
                row,
                old(b).nodes(),
                position(old(b).nodes(), old(b).parent()),
                final(b).nodes(),
                ids@,
            ),
    {
        build_row(b, make, row)
    };
    let (id, cells) = builder.child(style, data, build);
    proof {
        let (b, ids) = choose|b: &mut Builder<T>, ids: Vec<NodeId>|
            #![trigger build.ensures((b,), ids)]
            {
                &&& starts_at(*b, before, 0, row_node.style, row_node.data)
                &&& b.parent() == id
                &&& build.ensures((b,), ids)
                &&& cells == ids
                &&& builder.nodes() == final(b).nodes()
            };
        law_building_keeps_tree(*b);
        lemma_position_is_unique(b.nodes(), before.len() as int);
        assert(builder.nodes().take(before.len() as int + 1) =~= b.nodes());
    }
    cells
}

/// Adds the header and the rows under the root.
fn build_rows<T, N: Fn(GridNode) -> (Style, T)>(builder: &mut Builder<T>, make: &N) -> (r: (
    NodeId,
    Vec<NodeId>,
))
    requires
        old(builder).wf(),
        old(builder).nodes().len() == 1,
        forall|place: GridNode| #[trigger] make.requires((place,)),
    ensures
        final(builder).wf(),
        old(builder).nodes().is_prefix_of(final(builder).nodes()),
        is_made(*make, GridNode::Header, final(builder).nodes(), 1, 0),
        final(builder).nodes()[1].id == r.0,
        has_rows(*make, ROWS as int, final(builder).nodes(), r.1@),
{
    let ghost before = builder.nodes();
    proof {
        law_building_keeps_tree(*builder);
        lemma_position_is_unique(before, 0);
    }
    let (style, data) = make(GridNode::Header);
    let header = builder.leaf(style, data);
    let mut cells: Vec<NodeId> = Vec::new();
    let mut row: usize = 0;
    while row < ROWS
        invariant
            row <= ROWS,
            builder.wf(),
            builder.parent() == old(builder).parent(),
            before == old(builder).nodes(),
            before.len() == 1,
            before[0].id == builder.parent(),
            before.is_prefix_of(builder.nodes()),
            builder.nodes().len() >= 2,
            is_made(*make, GridNode::Header, builder.nodes(), 1, 0),
            builder.nodes()[1].id == header,
            has_rows(*make, row as int, builder.nodes(), cells@),
            forall|place: GridNode| #[trigger] make.requires((place,)),
        decreases ROWS - row,
    {
        let ghost nodes_before = builder.nodes();
        let ghost cells_before = cells@;
        let mut row_cells = add_row(builder, make, row);
        let ghost added = row_cells@;
        cells.append(&mut row_cells);
        proof {
            lemma_add_row(*make, row, nodes_before, cells_before, builder.nodes(), added);
            assert(cells@ =~= cells_before + added);
        }
        row += 1;
    }
    (header, cells)
}

/// Builds the layout tree of the grid, with nodes that `make` makes. Returns the
/// layout, the header, and the cells, row by row.
pub fn build_grid<T, S, N: Fn(GridNode) -> (Style, T)>(make: N) -> (r: (
    Layout<T, S>,
    NodeId,
    Vec<NodeId>,
))
    requires
        forall|place: GridNode| #[trigger] make.requires((place,)),
    ensures
        r.0.wf(),
        r.0.rects() == Map::<u64, Rect<S>>::empty(),
        is_grid(make, r.0.nodes(), r.1, r.2@),
{
    let (style, data) = make(GridNode::Root);
    let ghost root_style = style;
    let ghost root_data = data;
    let build = |b: &mut Builder<T>| -> (ids: (NodeId, Vec<NodeId>))
        requires
            b.wf(),
            b.nodes().len() == 1,
        ensures
            final(b).wf(),
            old(b).nodes().is_prefix_of(final(b).nodes()),
            is_made(make, GridNode::Header, final(b).nodes(), 1, 0),
            final(b).nodes()[1].id == ids.0,
            has_rows(make, ROWS as int, final(b).nodes(), ids.1@),
    {
        build_rows(b, &make)
    };
    let (layout, ids) = Layout::new(style, data, build);
    proof {
        let (b, built) = choose|b: &mut Builder<T>, built: (NodeId, Vec<NodeId>)|
            #![trigger build.ensures((b,), built)]
            {
                &&& starts_at(*b, Seq::empty(), -1, root_style, root_data)
                &&& b.parent() == layout.root()
                &&& build.ensures((b,), built)
                &&& ids == built
                &&& layout.nodes() == final(b).nodes()
            };
        assert(b.nodes()[0] == layout.nodes()[0]);
    }
    (layout, ids.0, ids.1)
}

/// The position of a cell among the nodes of the grid.
pub open spec fn cell_position(row: usize, col: usize) -> int {
    row_position(row as int) + 1 + col
}

/// Whether the cells are those of a grid with the given nodes, row by row.
pub open spec fn has_cells<T>(nodes: Seq<Node<T>>, cells: Seq<NodeId>) -> bool {
    &&& nodes.len() == row_position(ROWS as int)
    &&& cells.len() == ROWS * COLS
    &&& forall|row: usize, col: usize|
        0 <= row < ROWS && 0 <= col < COLS ==> cells[#[trigger] spec_flat_index(row, col)]
            == nodes[cell_position(row, col)].id
}

/// Whether the node at a position is a cell with a width of its own.
pub open spec fn is_animated(at: int) -> bool {
    exists|row: usize, col: usize|
        0 <= row < ROWS && 0 <= col < ANIM_COLS && at == #[trigger] cell_position(row, col)
}

/// Whether the cells with a width of their own have got styles that `style`
/// makes for their positions in the list of all cells, and nothing else has
/// changed.
pub open spec fn is_restyled<T, W: Fn(usize) -> Style>(
    style: W,
    before: Seq<Node<T>>,
    after: Seq<Node<T>>,
) -> bool {
    &&& after.len() == before.len()
    &&& forall|i: int|
        #![trigger before[i]]
        #![trigger after[i]]
        0 <= i < before.len() ==> {
            &&& after[i] == Node { style: after[i].style, ..before[i] }
            &&& !is_animated(i) ==> after[i] == before[i]
        }
    &&& forall|row: usize, col: usize|
        0 <= row < ROWS && 0 <= col < ANIM_COLS ==> style.ensures(
            (spec_flat_index(row, col) as usize,),
            after[#[trigger] cell_position(row, col)].style,
        )
}

/// Gives every cell with a width of its own the style that `style` makes for
/// its position in the list of all cells.
pub fn restyle_cells<T, S, W: Fn(usize) -> Style>(
    layout: &mut Layout<T, S>,
    cells: &Vec<NodeId>,
    style: W,
)
    requires
        old(layout).wf(),
        has_cells(old(layout).nodes(), cells@),
        forall|flat: usize| flat < ROWS * COLS ==> #[trigger] style.requires((flat,)),
    ensures
        final(layout).wf(),
        has_cells(final(layout).nodes(), cells@),
        final(layout).root() == old(layout).root(),
        final(layout).rects() == old(layout).rects(),
        is_restyled(style, old(layout).nodes(), final(layout).nodes()),
{
    let ghost before = layout.nodes();
    proof {
        lemma_positions();
    }
    let mut row: usize = 0;
    while row < ROWS
        invariant
            row <= ROWS,
            layout.wf(),
            has_cells(layout.nodes(), cells@),
            layout.root() == old(layout).root(),
            layout.rects() == old(layout).rects(),
            forall|flat: usize| flat < ROWS * COLS ==> #[trigger] style.requires((flat,)),
            restyled_up_to(style, before, layout.nodes(), row, 0),
        decreases ROWS - row,
    {
        let mut col: usize = 0;
        while col < ANIM_COLS
            invariant
                row < ROWS,
                col <= ANIM_COLS,
                layout.wf(),
                has_cells(layout.nodes(), cells@),
                layout.root() == old(layout).root(),
                layout.rects() == old(layout).rects(),
                forall|flat: usize| flat < ROWS * COLS ==> #[trigger] style.requires((flat,)),
                restyled_up_to(style, before, layout.nodes(), row, col),
            decreases ANIM_COLS - col,
        {
            let ghost nodes = layout.nodes();
            let ghost at = cell_position(row, col);
            let flat: usize = flat_index(row, col);
            proof {
                lemma_positions();
                law_layout_is_tree(*layout);
                assert(cells@[spec_flat_index(row, col)] == nodes[at].id);
                lemma_position_is_unique(nodes, at);
            }
            layout.set_style(cells[flat], style(flat));
            proof {
                assert(forall|i: int|
                    0 <= i < nodes.len() ==> (#[trigger] layout.nodes()[i]).id == nodes[i].id);
            }
            col += 1;
        }
        row += 1;
    }
}

/// Whether the cells in the rows before `row`, and in `row` those before `col`,
/// have got new styles, and nothing else has changed.
spec fn restyled_up_to<T, W: Fn(usize) -> Style>(
    style: W,
    before: Seq<Node<T>>,
    after: Seq<Node<T>>,
    row: usize,
    col: usize,
) -> bool {
    &&& after.len() == before.len()
    &&& forall|i: int|
        #![trigger before[i]]
        #![trigger after[i]]
        0 <= i < before.len() ==> {
            &&& after[i] == Node { style: after[i].style, ..before[i] }
            &&& !is_animated(i) ==> after[i] == before[i]
        }
    &&& forall|r: usize, c: usize|
        0 <= r < ROWS && 0 <= c < ANIM_COLS && (r < row || r == row && c < col) ==> style.ensures(
            (spec_flat_index(r, c) as usize,),
            after[#[trigger] cell_position(r, c)].style,
        )
}

/// Where the nodes of the grid are.
proof fn lemma_positions()
    ensures
        forall|row: int| #[trigger] row_position(row) == 2 + 5 * row,
        forall|row: usize, col: usize| #[trigger] spec_flat_index(row, col) == 4 * row + col,
{
    assert forall|row: int| #[trigger] row_position(row) == 2 + 5 * row by {
        assert(row * (COLS + 1) == 5 * row) by (nonlinear_arith);
    }
    assert forall|row: usize, col: usize| #[trigger] spec_flat_index(row, col) == 4 * row + col by {
        lemma_flat_index(row, col);
    }
}

/// The rectangles of the cells, row by row.
pub fn cell_rects<T, S: Copy>(layout: &Layout<T, S>, cells: &Vec<NodeId>) -> (rects: Vec<Rect<S>>)
    requires
        forall|i: int|
            0 <= i < cells@.len() ==> layout.rects().contains_key((#[trigger] cells@[i]).raw),
    ensures
        rects@.len() == cells@.len(),
        forall|i: int|
            0 <= i < cells@.len() ==> #[trigger] rects@[i] == layout.rects()[cells@[i].raw],
{
    let mut rects: Vec<Rect<S>> = Vec::new();
    let mut i: usize = 0;
    while i < cells.len()
        invariant
            i <= cells@.len(),
            rects@.len() == i,
            forall|j: int|
                0 <= j < cells@.len() ==> layout.rects().contains_key((#[trigger] cells@[j]).raw),
            forall|j: int| 0 <= j < i ==> #[trigger] rects@[j] == layout.rects()[cells@[j].raw],
        decreases cells@.len() - i,
    {
        rects.push(layout.rect(cells[i]));
        i += 1;
    }
    rects
}

/// What was built as a grid has the cells of a grid.
pub proof fn law_grid_has_cells<T, N: Fn(GridNode) -> (Style, T)>(
    make: N,
    nodes: Seq<Node<T>>,
    header: NodeId,
    cells: Seq<NodeId>,
)
    requires
        is_grid(make, nodes, header, cells),
    ensures
        has_cells(nodes, cells),
{
}

/// The cells of a grid are different nodes.
pub proof fn law_cells_are_apart<T>(nodes: Seq<Node<T>>, cells: Seq<NodeId>, one: int, other: int)
    requires
        form_tree(nodes),
        has_cells(nodes, cells),
        0 <= one < other < cells.len(),
    ensures
        cells[one] != cells[other],
{
    lemma_positions();
    let (row, col) = ((one / 4) as usize, (one % 4) as usize);
    let (other_row, other_col) = ((other / 4) as usize, (other % 4) as usize);
    assert(spec_flat_index(row, col) == one);
    assert(spec_flat_index(other_row, other_col) == other);
    assert(nodes[cell_position(row, col)].id != nodes[cell_position(other_row, other_col)].id);
}

/// One more row is there.
proof fn lemma_add_row<T, N: Fn(GridNode) -> (Style, T)>(
    make: N,
    rows: usize,
    before: Seq<Node<T>>,
    cells: Seq<NodeId>,
    after: Seq<Node<T>>,
    added: Seq<NodeId>,
)
    requires
        rows < ROWS,
        has_rows(make, rows as int, before, cells),
        before.is_prefix_of(after),
        before.len() < after.len(),
        is_made(make, GridNode::Row { row: rows }, after, before.len() as int, 0),
        is_row(
            make,
            rows,
            after.take(before.len() as int + 1),
            before.len() as int,
            after,
            added,
        ),
    ensures
        has_rows(make, rows + 1, after, cells + added),
{
    let all = cells + added;
    lemma_positions();
    assert((rows + 1) * COLS == rows * COLS + COLS) by (nonlinear_arith);
    assert(row_position(rows + 1) == row_position(rows as int) + 5);
    assert forall|row: usize|
        #![trigger row_position(row as int)]
        0 <= row < rows + 1 implies is_made(
        make,
        GridNode::Row { row },
        after,
        row_position(row as int),
        0,
    ) by {
        if row < rows {
            assert(after[row_position(row as int)] == before[row_position(row as int)]);
        }
    }
    assert forall|row: usize, col: usize| 0 <= row < rows + 1 && 0 <= col < COLS implies {
        let at = row_position(row as int) + 1 + col;
        &&& all[#[trigger] spec_flat_index(row, col)] == after[at].id
        &&& is_made(make, cell_place(row, col), after, at, row_position(row as int))
    } by {
        let at = row_position(row as int) + 1 + col;
        if row < rows {
            assert(after[at] == before[at]);
            assert(all[spec_flat_index(row, col)] == cells[spec_flat_index(row, col)]);
        } else {
            assert(all[spec_flat_index(row, col)] == added[col as int]);
            assert(at == before.len() + 1 + col);
            assert(added[col as int] == after[at].id);
        }
    }
}

} // verus!
