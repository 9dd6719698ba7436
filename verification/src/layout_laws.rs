//! What holds of every layout: the laws of span resolution, each proved from
//! the rules of placement.

use vstd::prelude::*;

use crate::layout::{
    boxed, content_at, covers, empty_layout, free_column, grid_height, grid_width, header_at,
    is_free_column, spans_positive,
    lemma_free_column_exists, lemma_free_column_unique, lemma_place_boxed, lemma_place_row_boxed,
    lemma_place_rows_boxed, occupied, partial_layout, place, place_row, place_rows, Cell, Layout,
};

verus! {

/// Whether every cell of every row spans exactly one row and one column.
pub open spec fn plain<T>(rows: Seq<Seq<Cell<T>>>) -> bool {
    forall|i: int, j: int|
        0 <= i < rows.len() && 0 <= j < rows[i].len() ==> (#[trigger] rows[i][j]).row_span == 1
            && rows[i][j].col_span == 1
}

/// The number of cells of the longest row.
pub open spec fn longest<T>(rows: Seq<Seq<Cell<T>>>) -> int
    decreases rows.len(),
{
    if rows.len() == 0 {
        0
    } else if longest(rows.drop_last()) < rows.last().len() {
        rows.last().len() as int
    } else {
        longest(rows.drop_last())
    }
}

/// Cells that span one row and one column each, placed on a row that nothing
/// claims yet, fill its first columns in order and touch nothing else.
proof fn lemma_plain_row<T>(layout: Layout<T>, row: int, cells: Seq<Cell<T>>)
    requires
        boxed(layout),
        0 <= row,
        forall|c: int| !occupied(layout, row, c),
        forall|j: int| 0 <= j < cells.len() ==> (#[trigger] cells[j]).row_span == 1 && cells[j].col_span == 1,
    ensures
        boxed(place_row(layout, row, cells)),
        forall|r: int, c: int| #[trigger]
            occupied(place_row(layout, row, cells), r, c) <==> occupied(layout, r, c) || (r == row
                && 0 <= c < cells.len()),
        forall|c: int|
            0 <= c < cells.len() ==> #[trigger] place_row(layout, row, cells).slots[(row, c)]
                == cells[c],
        forall|r: int, c: int|
            occupied(layout, r, c) ==> #[trigger] place_row(layout, row, cells).slots[(r, c)]
                == layout.slots[(r, c)],
        place_row(layout, row, cells).height == if cells.len() > 0 && layout.height < row + 1 {
            row + 1
        } else {
            layout.height
        },
        place_row(layout, row, cells).width == if layout.width < cells.len() {
            cells.len() as int
        } else {
            layout.width
        },
    decreases cells.len(),
{
    if cells.len() > 0 {
        let head = cells.drop_last();
        let before = place_row(layout, row, head);
        lemma_plain_row(layout, row, head);
        let col = head.len() as int;
        assert(is_free_column(before, row, col)) by {
            assert(!occupied(before, row, col));
            assert forall|k: int| 0 <= k < col implies occupied(before, row, k) by {}
        }
        lemma_free_column_unique(before, row, col);
        lemma_place_boxed(before, row, col, cells.last());
        let after = place(before, row, col, cells.last());
        assert(after == place_row(layout, row, cells));
        assert forall|r: int, c: int| #[trigger]
            occupied(after, r, c) <==> occupied(layout, r, c) || (r == row && 0 <= c
                < cells.len()) by {
            assert(occupied(after, r, c) <==> occupied(before, r, c) || covers(
                row,
                col,
                cells.last(),
                r,
                c,
            ));
        }
        assert forall|c: int| 0 <= c < cells.len() implies #[trigger] after.slots[(row, c)]
            == cells[c] by {
            if c < col {
                assert(before.slots[(row, c)] == head[c]);
            }
        }
        assert forall|r: int, c: int| occupied(layout, r, c) implies #[trigger] after.slots[(r, c)]
            == layout.slots[(r, c)] by {
            assert(before.slots[(r, c)] == layout.slots[(r, c)]);
        }
    }
}

/// A table without spanning cells is laid out as it is written: cell `c` of
/// row `r` is at `(r, c)` and nothing else is claimed. The box is as wide as
/// the longest row. It is as high as the table has rows, provided the last
/// row has a cell: rows without cells at the end of a table add nothing to
/// the box. With a cell in the last row, the grid therefore has as many rows
/// as the table and as many columns as its longest row.
pub proof fn lemma_plain_table<T>(rows: Seq<Seq<Cell<T>>>)
    requires
        plain(rows),
    ensures
        forall|r: int, c: int| #[trigger]
            occupied(place_rows(rows), r, c) <==> 0 <= r < rows.len() && 0 <= c < rows[r].len(),
        forall|r: int, c: int|
            0 <= r < rows.len() && 0 <= c < rows[r].len() ==> #[trigger] place_rows(rows).slots[(
                r,
                c,
            )] == rows[r][c],
        place_rows(rows).width == longest(rows),
        place_rows(rows).height <= rows.len(),
        rows.len() > 0 && rows.last().len() > 0 ==> place_rows(rows).height == rows.len(),
        rows.len() > 0 && rows.last().len() > 0 ==> grid_height(place_rows(rows)) == rows.len()
            && grid_width(place_rows(rows)) == longest(rows),
    decreases rows.len(),
{
    if rows.len() > 0 {
        let head = rows.drop_last();
        let before = place_rows(head);
        let row = rows.len() - 1;
        assert(plain(head)) by {
            assert forall|i: int, j: int| 0 <= i < head.len() && 0 <= j < head[i].len() implies (
            #[trigger] head[i][j]).row_span == 1 && head[i][j].col_span == 1 by {
                assert(head[i][j] == rows[i][j]);
            }
        }
        lemma_plain_table(head);
        lemma_place_rows_boxed(head);
        assert forall|c: int| !occupied(before, row, c) by {}
        assert forall|j: int| 0 <= j < rows.last().len() implies (#[trigger] rows.last()[j]).row_span
            == 1 && rows.last()[j].col_span == 1 by {
            assert(rows.last()[j] == rows[row][j]);
        }
        lemma_plain_row(before, row, rows.last());
        let after = place_rows(rows);
        assert forall|r: int, c: int| #[trigger]
            occupied(after, r, c) <==> 0 <= r < rows.len() && 0 <= c < rows[r].len() by {
            assert(occupied(before, r, c) <==> 0 <= r < head.len() && 0 <= c < head[r].len());
        }
        assert forall|r: int, c: int| 0 <= r < rows.len() && 0 <= c < rows[r].len() implies
            #[trigger] after.slots[(r, c)] == rows[r][c] by {
            if r < row {
                assert(occupied(before, r, c));
                assert(before.slots[(r, c)] == head[r][c]);
            }
        }
    }
}

/// What a row has claimed after its first `n` cells stays claimed after its
/// first `m`.
proof fn lemma_row_keeps_claims<T>(layout: Layout<T>, row: int, cells: Seq<Cell<T>>, n: int, m: int)
    requires
        0 <= n <= m <= cells.len(),
    ensures
        forall|r: int, c: int|
            occupied(place_row(layout, row, cells.take(n)), r, c) ==> #[trigger] occupied(
                place_row(layout, row, cells.take(m)),
                r,
                c,
            ),
    decreases m - n,
{
    if n < m {
        lemma_row_keeps_claims(layout, row, cells, n, m - 1);
        assert(cells.take(m).drop_last() =~= cells.take(m - 1));
        let start = place_row(layout, row, cells.take(n));
        let before = place_row(layout, row, cells.take(m - 1));
        let after = place_row(layout, row, cells.take(m));
        assert(after == place(before, row, free_column(before, row), cells.take(m).last()));
        assert forall|r: int, c: int| occupied(start, r, c) implies #[trigger] occupied(
            after,
            r,
            c,
        ) by {
            assert(occupied(before, r, c));
        }
    }
}

/// The column at which cell `j` of a row is anchored, when the row is placed
/// at `row` onto `layout`.
pub open spec fn anchor<T>(layout: Layout<T>, row: int, cells: Seq<Cell<T>>, j: int) -> int {
    free_column(place_row(layout, row, cells.take(j)), row)
}

/// How a cell sits in its own row. Its anchor is a position that no earlier
/// cell of the table claims. From there it holds as many columns of its row
/// as it spans, one beside the other. Every earlier cell of the same row
/// lies wholly to its left, so two cells of one row never share a column.
pub proof fn lemma_row_placement<T>(layout: Layout<T>, row: int, cells: Seq<Cell<T>>, j: int)
    requires
        boxed(layout),
        0 <= row,
        0 <= j < cells.len(),
        0 < cells[j].row_span,
        0 < cells[j].col_span,
    ensures
        0 <= anchor(layout, row, cells, j),
        !occupied(place_row(layout, row, cells.take(j)), row, anchor(layout, row, cells, j)),
        forall|c: int|
            anchor(layout, row, cells, j) <= c < anchor(layout, row, cells, j) + cells[j].col_span
                ==> #[trigger] occupied(place_row(layout, row, cells.take(j + 1)), row, c)
                && place_row(layout, row, cells.take(j + 1)).slots[(row, c)] == cells[j],
        forall|k: int|
            0 <= k < j && 0 < cells[k].row_span && 0 < cells[k].col_span ==> #[trigger] anchor(
                layout,
                row,
                cells,
                k,
            ) + cells[k].col_span <= anchor(layout, row, cells, j),
{
    let before = place_row(layout, row, cells.take(j));
    let col = anchor(layout, row, cells, j);
    lemma_place_row_boxed(layout, row, cells.take(j));
    lemma_free_column_exists(before, row);
    assert(cells.take(j + 1).drop_last() =~= cells.take(j));
    assert(cells.take(j + 1).last() == cells[j]);
    let after = place_row(layout, row, cells.take(j + 1));
    assert(after == place(before, row, col, cells[j]));
    assert forall|c: int| col <= c < col + cells[j].col_span implies #[trigger] occupied(
        after,
        row,
        c,
    ) && after.slots[(row, c)] == cells[j] by {
        assert(covers(row, col, cells[j], row, c));
    }
    assert forall|k: int|
        0 <= k < j && 0 < cells[k].row_span && 0 < cells[k].col_span implies #[trigger] anchor(
        layout,
        row,
        cells,
        k,
    ) + cells[k].col_span <= col by {
        let earlier = place_row(layout, row, cells.take(k));
        let left = anchor(layout, row, cells, k);
        lemma_place_row_boxed(layout, row, cells.take(k));
        lemma_free_column_exists(earlier, row);
        assert(cells.take(k + 1).drop_last() =~= cells.take(k));
        assert(cells.take(k + 1).last() == cells[k]);
        let then = place_row(layout, row, cells.take(k + 1));
        assert(then == place(earlier, row, left, cells[k]));
        lemma_row_keeps_claims(layout, row, cells, k, j);
        lemma_row_keeps_claims(layout, row, cells, k + 1, j);
        if col < left {
            assert(occupied(earlier, row, col));
            assert(occupied(before, row, col));
        } else if col < left + cells[k].col_span {
            assert(covers(row, left, cells[k], row, col));
            assert(occupied(then, row, col));
            assert(occupied(before, row, col));
        }
    }
}

/// Whether `layout` holds `cell` on every position that it covers from the
/// origin.
pub open spec fn holds_at_origin<T>(layout: Layout<T>, cell: Cell<T>) -> bool {
    forall|r: int, c: int|
        covers(0, 0, cell, r, c) ==> #[trigger] occupied(layout, r, c) && layout.slots[(r, c)]
            == cell
}

/// A cell placed at the first free column of its row takes nothing from the
/// cell at the origin.
proof fn lemma_origin_kept<T>(layout: Layout<T>, row: int, first: Cell<T>, next: Cell<T>)
    requires
        boxed(layout),
        holds_at_origin(layout, first),
        0 <= row,
    ensures
        holds_at_origin(place(layout, row, free_column(layout, row), next), first),
{
    let col = free_column(layout, row);
    lemma_free_column_exists(layout, row);
    let after = place(layout, row, col, next);
    assert forall|r: int, c: int| covers(0, 0, first, r, c) implies #[trigger] occupied(
        after,
        r,
        c,
    ) && after.slots[(r, c)] == first by {
        assert(occupied(layout, r, c));
        if covers(row, col, next, r, c) {
            assert(covers(0, 0, first, row, col));
            assert(occupied(layout, row, col));
        }
    }
}

proof fn lemma_origin_kept_row<T>(layout: Layout<T>, row: int, cells: Seq<Cell<T>>, first: Cell<T>)
    requires
        boxed(layout),
        holds_at_origin(layout, first),
        0 <= row,
    ensures
        holds_at_origin(place_row(layout, row, cells), first),
    decreases cells.len(),
{
    if cells.len() > 0 {
        lemma_origin_kept_row(layout, row, cells.drop_last(), first);
        lemma_place_row_boxed(layout, row, cells.drop_last());
        lemma_origin_kept(place_row(layout, row, cells.drop_last()), row, first, cells.last());
    }
}

proof fn lemma_origin_first_row<T>(cells: Seq<Cell<T>>)
    requires
        cells.len() > 0,
    ensures
        holds_at_origin(place_row(empty_layout(), 0, cells), cells[0]),
    decreases cells.len(),
{
    let start = empty_layout::<T>();
    if cells.len() == 1 {
        assert(cells.drop_last() =~= Seq::empty());
        assert(place_row(start, 0, cells.drop_last()) == start);
        assert(is_free_column(start, 0, 0));
        lemma_free_column_unique(start, 0, 0);
        let after = place(start, 0, 0, cells[0]);
        assert forall|r: int, c: int| covers(0, 0, cells[0], r, c) implies #[trigger] occupied(
            after,
            r,
            c,
        ) && after.slots[(r, c)] == cells[0] by {}
    } else {
        lemma_origin_first_row(cells.drop_last());
        lemma_place_row_boxed(start, 0, cells.drop_last());
        lemma_origin_kept(place_row(start, 0, cells.drop_last()), 0, cells[0], cells.last());
    }
}

/// The first cell of the first row keeps every position that it covers from
/// the origin: each of them holds that cell, with its content and its kind,
/// whatever follows in the table. A cell that spans two rows and one column
/// is therefore found at `(0, 0)` and at `(1, 0)`.
pub proof fn lemma_first_cell_footprint<T>(rows: Seq<Seq<Cell<T>>>)
    requires
        rows.len() > 0,
        rows[0].len() > 0,
    ensures
        holds_at_origin(place_rows(rows), rows[0][0]),
    decreases rows.len(),
{
    if rows.len() == 1 {
        assert(rows.drop_last() =~= Seq::empty());
        assert(place_rows(rows.drop_last()) == empty_layout::<T>());
        lemma_origin_first_row(rows[0]);
    } else {
        lemma_first_cell_footprint(rows.drop_last());
        lemma_place_rows_boxed(rows.drop_last());
        lemma_origin_kept_row(place_rows(rows.drop_last()), rows.len() - 1, rows.last(), rows[0][0]);
    }
}

/// Whether `(r, c)` lies in the footprint of a cell of the table that is
/// `cell`: some cell `j` of some row `i` is `cell`, and it covers `(r, c)`
/// from the position at which the table anchors it.
pub open spec fn from_source<T>(rows: Seq<Seq<Cell<T>>>, cell: Cell<T>, r: int, c: int) -> bool {
    exists|i: int, j: int|
        0 <= i < rows.len() && 0 <= j < rows[i].len() && #[trigger] rows[i][j] == cell && covers(
            i,
            anchor(place_rows(rows.take(i)), i, rows[i], j),
            cell,
            r,
            c,
        )
}

/// Whether every claimed position of `layout` holds a cell of the table in
/// whose footprint it lies.
pub open spec fn sourced<T>(layout: Layout<T>, rows: Seq<Seq<Cell<T>>>) -> bool {
    forall|r: int, c: int| #[trigger]
        occupied(layout, r, c) ==> from_source(rows, layout.slots[(r, c)], r, c)
}

proof fn lemma_partial_sourced<T>(rows: Seq<Seq<Cell<T>>>, i: int, j: int)
    requires
        0 <= i < rows.len(),
        0 <= j <= rows[i].len(),
    ensures
        sourced(partial_layout(rows, i, j), rows),
    decreases i, j,
{
    let here = partial_layout(rows, i, j);
    if j > 0 {
        let before = partial_layout(rows, i, j - 1);
        lemma_partial_sourced(rows, i, j - 1);
        assert(rows[i].take(j).drop_last() =~= rows[i].take(j - 1));
        assert(rows[i].take(j).last() == rows[i][j - 1]);
        let col = anchor(place_rows(rows.take(i)), i, rows[i], j - 1);
        assert(here == place(before, i, col, rows[i][j - 1]));
        assert forall|r: int, c: int| #[trigger] occupied(here, r, c) implies from_source(
            rows,
            here.slots[(r, c)],
            r,
            c,
        ) by {
            if rows[i][j - 1].row_span != 0 && rows[i][j - 1].col_span != 0 && covers(
                i,
                col,
                rows[i][j - 1],
                r,
                c,
            ) {
                assert(rows[i][j - 1] == here.slots[(r, c)]);
            } else {
                assert(occupied(before, r, c));
                assert(here.slots[(r, c)] == before.slots[(r, c)]);
            }
        }
    } else if i > 0 {
        lemma_partial_sourced(rows, i - 1, rows[i - 1].len() as int);
        assert(rows.take(i).drop_last() =~= rows.take(i - 1));
        assert(rows.take(i).last() == rows[i - 1]);
        assert(rows[i - 1].take(rows[i - 1].len() as int) =~= rows[i - 1]);
        assert(rows[i].take(0) =~= Seq::empty());
        assert(here == partial_layout(rows, i - 1, rows[i - 1].len() as int));
    } else {
        assert(rows[i].take(0) =~= Seq::empty());
        assert(rows.take(0) =~= Seq::empty());
    }
}

/// Every position of the grid goes back to a cell of the table. A claimed
/// position holds a cell of the table and lies in the footprint of that
/// cell, so it shows that cell's content, and its header flag is that cell's
/// kind: raised on every position that a header cell has kept, the spanned
/// ones too, and on no position of a data cell. A position that nothing
/// claims shows nothing and has no flag.
pub proof fn lemma_slots_from_source<T>(rows: Seq<Seq<Cell<T>>>, r: int, c: int)
    ensures
        occupied(place_rows(rows), r, c) ==> {
            &&& from_source(rows, place_rows(rows).slots[(r, c)], r, c)
            &&& content_at(place_rows(rows), r, c) == Some(place_rows(rows).slots[(r, c)].content)
            &&& header_at(place_rows(rows), r, c) == place_rows(rows).slots[(r, c)].is_header
        },
        !occupied(place_rows(rows), r, c) ==> {
            &&& content_at(place_rows(rows), r, c) is None
            &&& !header_at(place_rows(rows), r, c)
        },
{
    if rows.len() > 0 {
        let i = rows.len() - 1;
        lemma_partial_sourced(rows, i, rows[i].len() as int);
        assert(rows.take(i + 1) =~= rows);
        assert(rows.take(i) =~= rows.drop_last());
        assert(rows[i].take(rows[i].len() as int) =~= rows[i]);
        assert(place_rows(rows) == partial_layout(rows, i, rows[i].len() as int));
    }
}

/// Whether the box of `layout` is no larger than its claims need: its last
/// row and its last column each hold a claimed position.
pub open spec fn tight<T>(layout: Layout<T>) -> bool {
    &&& layout.height > 0 ==> exists|c: int| #[trigger] occupied(layout, layout.height - 1, c)
    &&& layout.width > 0 ==> exists|r: int| #[trigger] occupied(layout, r, layout.width - 1)
}

proof fn lemma_place_tight<T>(layout: Layout<T>, row: int, col: int, cell: Cell<T>)
    requires
        tight(layout),
    ensures
        tight(place(layout, row, col, cell)),
{
    let after = place(layout, row, col, cell);
    if cell.row_span != 0 && cell.col_span != 0 {
        if layout.height < row + cell.row_span {
            assert(covers(row, col, cell, row + cell.row_span - 1, col));
            assert(occupied(after, after.height - 1, col));
        } else if layout.height > 0 {
            let c = choose|c: int| #[trigger] occupied(layout, layout.height - 1, c);
            assert(occupied(after, after.height - 1, c));
        }
        if layout.width < col + cell.col_span {
            assert(covers(row, col, cell, row, col + cell.col_span - 1));
            assert(occupied(after, row, after.width - 1));
        } else if layout.width > 0 {
            let r = choose|r: int| #[trigger] occupied(layout, r, layout.width - 1);
            assert(occupied(after, r, after.width - 1));
        }
    }
}

proof fn lemma_place_row_tight<T>(layout: Layout<T>, row: int, cells: Seq<Cell<T>>)
    requires
        tight(layout),
    ensures
        tight(place_row(layout, row, cells)),
    decreases cells.len(),
{
    if cells.len() > 0 {
        let before = place_row(layout, row, cells.drop_last());
        lemma_place_row_tight(layout, row, cells.drop_last());
        lemma_place_tight(before, row, free_column(before, row), cells.last());
    }
}

/// The box of a layout is the bounding box of its claims: every claimed
/// position lies inside it, and its last row and its last column each hold
/// one. The grid is sized to this box, with one row and one column at least.
pub proof fn lemma_box_bounds_claims<T>(rows: Seq<Seq<Cell<T>>>)
    ensures
        boxed(place_rows(rows)),
        tight(place_rows(rows)),
    decreases rows.len(),
{
    lemma_place_rows_boxed(rows);
    if rows.len() > 0 {
        lemma_box_bounds_claims(rows.drop_last());
        lemma_place_row_tight(place_rows(rows.drop_last()), rows.len() - 1, rows.last());
    }
}

/// The columns that the first `j` cells of a row span together.
pub open spec fn width_before<T>(cells: Seq<Cell<T>>, j: int) -> int
    decreases j,
{
    if j <= 0 {
        0
    } else {
        width_before(cells, j - 1) + cells[j - 1].col_span
    }
}

/// Whether every cell of the first `n` rows spans exactly one row.
pub open spec fn single_rows<T>(rows: Seq<Seq<Cell<T>>>, n: int) -> bool {
    forall|i: int, k: int|
        0 <= i < n && 0 <= k < rows[i].len() ==> (#[trigger] rows[i][k]).row_span == 1
}

/// Placing a row changes nothing above it.
proof fn lemma_row_leaves_above<T>(layout: Layout<T>, row: int, cells: Seq<Cell<T>>)
    ensures
        forall|x: int, y: int|
            x < row ==> (#[trigger] occupied(place_row(layout, row, cells), x, y) == occupied(
                layout,
                x,
                y,
            )),
        forall|x: int, y: int|
            x < row && occupied(layout, x, y) ==> #[trigger] place_row(layout, row, cells).slots[(
                x,
                y,
            )] == layout.slots[(x, y)],
    decreases cells.len(),
{
    if cells.len() > 0 {
        let before = place_row(layout, row, cells.drop_last());
        lemma_row_leaves_above(layout, row, cells.drop_last());
        let after = place(before, row, free_column(before, row), cells.last());
        assert forall|x: int, y: int| x < row implies (#[trigger] occupied(after, x, y) == occupied(
            layout,
            x,
            y,
        )) by {
            assert(occupied(before, x, y) == occupied(layout, x, y));
        }
        assert forall|x: int, y: int| x < row && occupied(layout, x, y) implies #[trigger] after.slots[(
            x,
            y,
        )] == layout.slots[(x, y)] by {
            assert(occupied(before, x, y) == occupied(layout, x, y));
            assert(before.slots[(x, y)] == layout.slots[(x, y)]);
        }
    }
}

/// A row whose cells span one row each claims nothing but positions of its
/// own row.
proof fn lemma_single_row_claims<T>(layout: Layout<T>, row: int, cells: Seq<Cell<T>>)
    requires
        forall|k: int| 0 <= k < cells.len() ==> (#[trigger] cells[k]).row_span == 1,
    ensures
        forall|x: int, y: int| #[trigger]
            occupied(place_row(layout, row, cells), x, y) ==> occupied(layout, x, y) || x == row,
    decreases cells.len(),
{
    if cells.len() > 0 {
        let before = place_row(layout, row, cells.drop_last());
        lemma_single_row_claims(layout, row, cells.drop_last());
        let after = place(before, row, free_column(before, row), cells.last());
        assert forall|x: int, y: int| #[trigger] occupied(after, x, y) implies occupied(
            layout,
            x,
            y,
        ) || x == row by {
            if !covers(row, free_column(before, row), cells.last(), x, y) {
                assert(occupied(before, x, y));
            }
        }
    }
}

/// Rows whose cells span one row each claim nothing below themselves.
proof fn lemma_free_below<T>(rows: Seq<Seq<Cell<T>>>, n: int)
    requires
        0 <= n <= rows.len(),
        single_rows(rows, n),
    ensures
        forall|x: int, y: int| #[trigger] occupied(place_rows(rows.take(n)), x, y) ==> x < n,
    decreases n,
{
    if n > 0 {
        lemma_free_below(rows, n - 1);
        let head = rows.take(n);
        assert(head.drop_last() =~= rows.take(n - 1));
        assert(head.last() == rows[n - 1]);
        assert forall|k: int| 0 <= k < rows[n - 1].len() implies (#[trigger] rows[n - 1][k]).row_span
            == 1 by {}
        lemma_single_row_claims(place_rows(rows.take(n - 1)), n - 1, rows[n - 1]);
        assert forall|x: int, y: int| #[trigger] occupied(place_rows(head), x, y) implies x < n by {
            if occupied(place_rows(rows.take(n - 1)), x, y) {
            }
        }
    } else {
        assert(rows.take(0) =~= Seq::empty());
    }
}

/// On a row that nothing claims yet, the cells stand side by side from the
/// left: after `j` of them the claimed columns of the row are those before
/// the width of the `j`, each cell holds its own, and the next cell is
/// anchored at that width.
proof fn lemma_row_fills_from_left<T>(layout: Layout<T>, row: int, cells: Seq<Cell<T>>, j: int)
    requires
        boxed(layout),
        0 <= row,
        forall|y: int| !occupied(layout, row, y),
        0 <= j <= cells.len(),
        forall|k: int|
            0 <= k < cells.len() ==> 0 < (#[trigger] cells[k]).row_span && 0 < cells[k].col_span,
    ensures
        0 <= width_before(cells, j),
        forall|y: int| #[trigger]
            occupied(place_row(layout, row, cells.take(j)), row, y) <==> 0 <= y < width_before(
                cells,
                j,
            ),
        forall|k: int, y: int|
            #![trigger width_before(cells, k), place_row(layout, row, cells.take(j)).slots[(row, y)]]
            0 <= k < j && width_before(cells, k) <= y < width_before(cells, k + 1) ==> place_row(
                layout,
                row,
                cells.take(j),
            ).slots[(row, y)] == cells[k],
        free_column(place_row(layout, row, cells.take(j)), row) == width_before(cells, j),
    decreases j,
{
    let here = place_row(layout, row, cells.take(j));
    if j == 0 {
        assert(cells.take(0) =~= Seq::empty());
        assert(here == layout);
    } else {
        let before = place_row(layout, row, cells.take(j - 1));
        lemma_row_fills_from_left(layout, row, cells, j - 1);
        assert(cells.take(j).drop_last() =~= cells.take(j - 1));
        assert(cells.take(j).last() == cells[j - 1]);
        let col = width_before(cells, j - 1);
        assert(here == place(before, row, col, cells[j - 1]));
        assert(width_before(cells, j) == col + cells[j - 1].col_span);
        assert forall|y: int| #[trigger] occupied(here, row, y) <==> 0 <= y < width_before(
            cells,
            j,
        ) by {
            assert(occupied(here, row, y) <==> occupied(before, row, y) || covers(
                row,
                col,
                cells[j - 1],
                row,
                y,
            ));
        }
        assert forall|k: int, y: int|
            #![trigger width_before(cells, k), here.slots[(row, y)]]
            0 <= k < j && width_before(cells, k) <= y < width_before(cells, k + 1) implies here.slots[(
                row,
                y,
            )] == cells[k] by {
            if k < j - 1 {
                lemma_width_grows(cells, k, k + 1);
                lemma_width_grows(cells, k + 1, j - 1);
                assert(0 <= y < col);
                assert(!covers(row, col, cells[j - 1], row, y));
                assert(occupied(before, row, y));
                assert(before.slots[(row, y)] == cells[k]);
            } else {
                assert(covers(row, col, cells[j - 1], row, y));
            }
        }
    }
    assert(is_free_column(here, row, width_before(cells, j))) by {
        assert(!occupied(here, row, width_before(cells, j)));
        assert forall|y: int| 0 <= y < width_before(cells, j) implies occupied(here, row, y) by {}
    }
    lemma_free_column_unique(here, row, width_before(cells, j));
}

/// The width of more cells is not smaller.
proof fn lemma_width_grows<T>(cells: Seq<Cell<T>>, a: int, b: int)
    requires
        0 <= a <= b,
    ensures
        0 <= width_before(cells, a) <= width_before(cells, b),
    decreases b,
{
    if a < b {
        lemma_width_grows(cells, a, b - 1);
    } else if a > 0 {
        lemma_width_grows(cells, a - 1, a - 1);
        lemma_width_grows(cells, a - 1, b - 1);
    }
}

/// The rows after row `r` change nothing in row `r`.
proof fn lemma_later_rows_leave_row<T>(rows: Seq<Seq<Cell<T>>>, r: int, n: int)
    requires
        0 <= r < n <= rows.len(),
    ensures
        forall|y: int| #[trigger]
            occupied(place_rows(rows.take(n)), r, y) == occupied(place_rows(rows.take(r + 1)), r, y),
        forall|y: int|
            occupied(place_rows(rows.take(r + 1)), r, y) ==> #[trigger] place_rows(
                rows.take(n),
            ).slots[(r, y)] == place_rows(rows.take(r + 1)).slots[(r, y)],
    decreases n,
{
    if n > r + 1 {
        lemma_later_rows_leave_row(rows, r, n - 1);
        let head = rows.take(n);
        assert(head.drop_last() =~= rows.take(n - 1));
        assert(head.last() == rows[n - 1]);
        let before = place_rows(rows.take(n - 1));
        lemma_row_leaves_above(before, n - 1, rows[n - 1]);
        let after = place_rows(head);
        let settled = place_rows(rows.take(r + 1));
        assert forall|y: int| #[trigger] occupied(after, r, y) == occupied(settled, r, y) by {
            assert(occupied(after, r, y) == occupied(before, r, y));
            assert(occupied(before, r, y) == occupied(settled, r, y));
        }
        assert forall|y: int| occupied(settled, r, y) implies #[trigger] after.slots[(r, y)]
            == settled.slots[(r, y)] by {
            assert(occupied(before, r, y) == occupied(settled, r, y));
            assert(after.slots[(r, y)] == before.slots[(r, y)]);
            assert(before.slots[(r, y)] == settled.slots[(r, y)]);
        }
    }
}

/// Where no cell of the rows above spans more than its own row, the cells of
/// a row stand side by side from the left. Each cell holds, in its own row,
/// the columns from the width of the cells before it up to its own span: a
/// cell that spans two columns holds two columns side by side, and no cell
/// of the row takes a column of another. What follows in the table changes
/// nothing of it.
pub proof fn lemma_cell_columns<T>(rows: Seq<Seq<Cell<T>>>, r: int, j: int)
    requires
        0 <= r < rows.len(),
        0 <= j < rows[r].len(),
        spans_positive(rows),
        single_rows(rows, r),
    ensures
        anchor(place_rows(rows.take(r)), r, rows[r], j) == width_before(rows[r], j),
        forall|y: int|
            width_before(rows[r], j) <= y < width_before(rows[r], j) + rows[r][j].col_span
                ==> #[trigger] occupied(place_rows(rows), r, y) && place_rows(rows).slots[(r, y)]
                == rows[r][j],
{
    let base = place_rows(rows.take(r));
    let cells = rows[r];
    lemma_place_rows_boxed(rows.take(r));
    lemma_free_below(rows, r);
    assert forall|y: int| !occupied(base, r, y) by {
        if occupied(base, r, y) {
            assert(r < r);
        }
    }
    assert forall|k: int| 0 <= k < cells.len() implies 0 < (#[trigger] cells[k]).row_span && 0
        < cells[k].col_span by {
        assert(cells[k] == rows[r][k]);
    }
    lemma_row_fills_from_left(base, r, cells, j);
    lemma_row_fills_from_left(base, r, cells, cells.len() as int);
    assert(cells.take(cells.len() as int) =~= cells);
    let head = rows.take(r + 1);
    assert(head.drop_last() =~= rows.take(r));
    assert(head.last() == cells);
    let settled = place_rows(head);
    assert(settled == place_row(base, r, cells));
    lemma_later_rows_leave_row(rows, r, rows.len() as int);
    assert(rows.take(rows.len() as int) =~= rows);
    lemma_width_grows(cells, j + 1, cells.len() as int);
    assert(width_before(cells, j + 1) == width_before(cells, j) + cells[j].col_span);
    assert forall|y: int|
        width_before(cells, j) <= y < width_before(cells, j) + cells[j].col_span implies
        #[trigger] occupied(place_rows(rows), r, y) && place_rows(rows).slots[(r, y)]
        == rows[r][j] by {
        assert(occupied(settled, r, y));
        assert(settled.slots[(r, y)] == cells[j]);
        assert(occupied(place_rows(rows), r, y) == occupied(settled, r, y));
    }
}

} // verus!
