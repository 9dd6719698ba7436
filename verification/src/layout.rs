//! Span resolution: from rows of cell descriptors to the positions that each
//! cell occupies in a dense grid.
//!
//! The rules are stated here over a mathematical [`Layout`]: a map from
//! positions to the descriptor that claims them, with its bounding box.

use vstd::prelude::*;

use crate::table::Table;

verus! {

/// One cell of a source row: its kind, how many rows and columns it spans,
/// and its content.
#[derive(Clone, Copy, Debug)]
pub struct Cell<T> {
    pub is_header: bool,
    pub row_span: usize,
    pub col_span: usize,
    pub content: T,
}

/// The positions claimed so far, each with the cell that claims it, and the
/// size of the smallest box from the origin that holds them all.
pub struct Layout<T> {
    pub slots: Map<(int, int), Cell<T>>,
    pub height: int,
    pub width: int,
}

/// Whether a cell anchored at `(row, col)` covers position `(r, c)`.
pub open spec fn covers<T>(row: int, col: int, cell: Cell<T>, r: int, c: int) -> bool {
    row <= r < row + cell.row_span && col <= c < col + cell.col_span
}

/// The layout with nothing placed.
pub open spec fn empty_layout<T>() -> Layout<T> {
    Layout { slots: Map::empty(), height: 0, width: 0 }
}

/// Whether `(r, c)` is claimed.
pub open spec fn occupied<T>(layout: Layout<T>, r: int, c: int) -> bool {
    layout.slots.dom().contains((r, c))
}

/// Anchors `cell` at `(row, col)`: every position it covers is claimed for
/// it, whatever was there before, and the box grows to hold them.
pub open spec fn place<T>(layout: Layout<T>, row: int, col: int, cell: Cell<T>) -> Layout<T> {
    if cell.row_span == 0 || cell.col_span == 0 {
        layout
    } else {
        Layout {
            slots: Map::new(
                |p: (int, int)| occupied(layout, p.0, p.1) || covers(row, col, cell, p.0, p.1),
                |p: (int, int)|
                    if covers(row, col, cell, p.0, p.1) {
                        cell
                    } else {
                        layout.slots[p]
                    },
            ),
            height: if layout.height < row + cell.row_span {
                row + cell.row_span
            } else {
                layout.height
            },
            width: if layout.width < col + cell.col_span {
                col + cell.col_span
            } else {
                layout.width
            },
        }
    }
}

/// Whether `col` is the first column of `row` that nothing claims.
pub open spec fn is_free_column<T>(layout: Layout<T>, row: int, col: int) -> bool {
    &&& 0 <= col
    &&& !occupied(layout, row, col)
    &&& forall|k: int| 0 <= k < col ==> occupied(layout, row, k)
}

/// The first column of `row` that nothing claims.
pub open spec fn free_column<T>(layout: Layout<T>, row: int) -> int {
    choose|col: int| is_free_column(layout, row, col)
}

/// Places the cells of one source row, in order, each at the first free
/// column of `row`.
pub open spec fn place_row<T>(layout: Layout<T>, row: int, cells: Seq<Cell<T>>) -> Layout<T>
    decreases cells.len(),
{
    if cells.len() == 0 {
        layout
    } else {
        let before = place_row(layout, row, cells.drop_last());
        place(before, row, free_column(before, row), cells.last())
    }
}

/// Places all rows, in order; row `i` of the source goes to row `i`.
pub open spec fn place_rows<T>(rows: Seq<Seq<Cell<T>>>) -> Layout<T>
    decreases rows.len(),
{
    if rows.len() == 0 {
        empty_layout()
    } else {
        place_row(place_rows(rows.drop_last()), rows.len() - 1, rows.last())
    }
}

/// Every claimed position lies inside the box.
pub open spec fn boxed<T>(layout: Layout<T>) -> bool {
    &&& 0 <= layout.height
    &&& 0 <= layout.width
    &&& forall|r: int, c: int| #[trigger]
        occupied(layout, r, c) ==> 0 <= r < layout.height && 0 <= c < layout.width
}

/// The first free column is unique: a column that fits the description is
/// the one that `free_column` names.
pub proof fn lemma_free_column_unique<T>(layout: Layout<T>, row: int, col: int)
    requires
        is_free_column(layout, row, col),
    ensures
        free_column(layout, row) == col,
{
    let other = free_column(layout, row);
    assert(is_free_column(layout, row, other));
    if other < col {
        assert(occupied(layout, row, other));
    } else if col < other {
        assert(occupied(layout, row, col));
    }
}

/// In a boxed layout every row has a first free column, at most `width`.
pub proof fn lemma_free_column_exists<T>(layout: Layout<T>, row: int)
    requires
        boxed(layout),
    ensures
        is_free_column(layout, row, free_column(layout, row)),
        0 <= free_column(layout, row) <= layout.width,
{
    let col = first_gap(layout, row, 0);
    lemma_first_gap(layout, row, 0);
    lemma_free_column_unique(layout, row, col);
}

/// The first unclaimed column of `row` at or after `from`, searched up to the
/// box's width.
spec fn first_gap<T>(layout: Layout<T>, row: int, from: int) -> int
    decreases layout.width - from,
{
    if from < layout.width && occupied(layout, row, from) {
        first_gap(layout, row, from + 1)
    } else {
        from
    }
}

proof fn lemma_first_gap<T>(layout: Layout<T>, row: int, from: int)
    requires
        boxed(layout),
        0 <= from,
        forall|k: int| 0 <= k < from ==> occupied(layout, row, k),
    ensures
        is_free_column(layout, row, first_gap(layout, row, from)),
        first_gap(layout, row, from) <= layout.width || first_gap(layout, row, from) == from,
        from <= layout.width ==> first_gap(layout, row, from) <= layout.width,
    decreases layout.width - from,
{
    if from < layout.width && occupied(layout, row, from) {
        lemma_first_gap(layout, row, from + 1);
    } else if occupied(layout, row, from) {
        assert(from < layout.width);
    }
}

/// Whether the box of `b` holds the box of `a`.
pub open spec fn within<T>(a: Layout<T>, b: Layout<T>) -> bool {
    a.height <= b.height && a.width <= b.width
}

/// Placing a cell keeps a layout boxed and never shrinks its box.
pub proof fn lemma_place_boxed<T>(layout: Layout<T>, row: int, col: int, cell: Cell<T>)
    requires
        boxed(layout),
        0 <= row,
        0 <= col,
    ensures
        boxed(place(layout, row, col, cell)),
        within(layout, place(layout, row, col, cell)),
{
    let after = place(layout, row, col, cell);
    assert forall|r: int, c: int| #[trigger] occupied(after, r, c) implies 0 <= r < after.height
        && 0 <= c < after.width by {
        if !covers(row, col, cell, r, c) {
            assert(occupied(layout, r, c));
        }
    }
}

/// Placing a row keeps a layout boxed and never shrinks its box.
pub proof fn lemma_place_row_boxed<T>(layout: Layout<T>, row: int, cells: Seq<Cell<T>>)
    requires
        boxed(layout),
        0 <= row,
    ensures
        boxed(place_row(layout, row, cells)),
        within(layout, place_row(layout, row, cells)),
    decreases cells.len(),
{
    if cells.len() > 0 {
        let before = place_row(layout, row, cells.drop_last());
        lemma_place_row_boxed(layout, row, cells.drop_last());
        lemma_free_column_exists(before, row);
        lemma_place_boxed(before, row, free_column(before, row), cells.last());
    }
}

/// The layout of any table is boxed.
pub proof fn lemma_place_rows_boxed<T>(rows: Seq<Seq<Cell<T>>>)
    ensures
        boxed(place_rows(rows)),
    decreases rows.len(),
{
    if rows.len() > 0 {
        lemma_place_rows_boxed(rows.drop_last());
        lemma_place_row_boxed(place_rows(rows.drop_last()), rows.len() - 1, rows.last());
    }
}

/// The box after the first `j` cells of a row lies within the box after the
/// whole row.
proof fn lemma_place_row_prefix<T>(layout: Layout<T>, row: int, cells: Seq<Cell<T>>, j: int)
    requires
        boxed(layout),
        0 <= row,
        0 <= j <= cells.len(),
    ensures
        within(place_row(layout, row, cells.take(j)), place_row(layout, row, cells)),
    decreases cells.len(),
{
    if j == cells.len() {
        assert(cells.take(j) =~= cells);
    } else {
        assert(cells.drop_last().take(j) =~= cells.take(j));
        lemma_place_row_prefix(layout, row, cells.drop_last(), j);
        let before = place_row(layout, row, cells.drop_last());
        lemma_place_row_boxed(layout, row, cells.drop_last());
        lemma_free_column_exists(before, row);
        lemma_place_boxed(before, row, free_column(before, row), cells.last());
    }
}

/// The box after the first `i` rows lies within the box of the whole table.
proof fn lemma_place_rows_prefix<T>(rows: Seq<Seq<Cell<T>>>, i: int)
    requires
        0 <= i <= rows.len(),
    ensures
        within(place_rows(rows.take(i)), place_rows(rows)),
    decreases rows.len(),
{
    if i == rows.len() {
        assert(rows.take(i) =~= rows);
    } else {
        assert(rows.drop_last().take(i) =~= rows.take(i));
        lemma_place_rows_prefix(rows.drop_last(), i);
        lemma_place_rows_boxed(rows.drop_last());
        lemma_place_row_boxed(place_rows(rows.drop_last()), rows.len() - 1, rows.last());
    }
}

/// The layout reached after the first `i` rows and the first `j` cells of
/// row `i`.
pub open spec fn partial_layout<T>(rows: Seq<Seq<Cell<T>>>, i: int, j: int) -> Layout<T> {
    place_row(place_rows(rows.take(i)), i, rows[i].take(j))
}

/// Every layout reached on the way lies within the box of the whole table.
pub proof fn lemma_partial_within<T>(rows: Seq<Seq<Cell<T>>>, i: int, j: int)
    requires
        0 <= i < rows.len(),
        0 <= j <= rows[i].len(),
    ensures
        boxed(partial_layout(rows, i, j)),
        within(partial_layout(rows, i, j), place_rows(rows)),
{
    let head = rows.take(i + 1);
    assert(head.drop_last() =~= rows.take(i));
    assert(head.last() == rows[i]);
    lemma_place_rows_boxed(rows.take(i));
    lemma_place_row_boxed(place_rows(rows.take(i)), i, rows[i].take(j));
    lemma_place_row_prefix(place_rows(rows.take(i)), i, rows[i], j);
    lemma_place_rows_prefix(rows, i + 1);
}

/// What a grid shows at `(r, c)` for this layout: the content of the cell
/// that claims the position, or nothing.
pub open spec fn content_at<T>(layout: Layout<T>, r: int, c: int) -> Option<T> {
    if occupied(layout, r, c) {
        Some(layout.slots[(r, c)].content)
    } else {
        None
    }
}

/// Whether the position is claimed by a header cell.
pub open spec fn header_at<T>(layout: Layout<T>, r: int, c: int) -> bool {
    occupied(layout, r, c) && layout.slots[(r, c)].is_header
}

/// Rows of the grid for this layout: the box's height, and one row where
/// nothing was placed.
pub open spec fn grid_height<T>(layout: Layout<T>) -> int {
    if layout.height < 1 {
        1
    } else {
        layout.height
    }
}

/// Columns of the grid for this layout: the box's width, and one column
/// where nothing was placed.
pub open spec fn grid_width<T>(layout: Layout<T>) -> int {
    if layout.width < 1 {
        1
    } else {
        layout.width
    }
}

/// Whether a grid for this layout can be addressed on this machine.
pub open spec fn addressable<T>(layout: Layout<T>) -> bool {
    grid_height(layout) * grid_width(layout) <= usize::MAX
}

/// Whether `table` is the grid of `layout`: its size is that of the box and
/// every slot shows what the layout holds there.
pub open spec fn shows<T>(table: Table<T>, layout: Layout<T>) -> bool {
    &&& table.height() == grid_height(layout)
    &&& table.width() == grid_width(layout)
    &&& forall|r: int, c: int| #[trigger]
        table.in_bounds(r, c) ==> table.cell(r, c) == content_at(layout, r, c)
    &&& forall|r: int, c: int| #[trigger]
        table.in_bounds(r, c) ==> table.header(r, c) == header_at(layout, r, c)
}

/// The rows of descriptors as sequences.
pub open spec fn rows_view<T>(rows: Seq<Vec<Cell<T>>>) -> Seq<Seq<Cell<T>>> {
    Seq::new(rows.len(), |i: int| rows[i]@)
}

/// Whether every cell of every row spans one row and one column at least.
pub open spec fn spans_positive<T>(rows: Seq<Seq<Cell<T>>>) -> bool {
    forall|i: int, j: int|
        0 <= i < rows.len() && 0 <= j < rows[i].len() ==> 0 < (#[trigger] rows[i][j]).row_span && 0
            < rows[i][j].col_span
}

/// Whether `table` is the grid of some table whose cells all have positive
/// spans.
pub open spec fn is_resolved<T>(table: Table<T>) -> bool {
    exists|rows: Seq<Seq<Cell<T>>>|
        spans_positive(rows) && addressable(place_rows(rows)) && #[trigger] shows(
            table,
            place_rows(rows),
        )
}

} // verus!
