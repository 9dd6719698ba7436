//! The resolver: computes the grid of a table from its rows of cell
//! descriptors.
//!
//! The cells are anchored in one pass over the rows, with a skyline that
//! tells for each column down to which row it is claimed, and then written
//! into a grid of the size of their box.

use vstd::prelude::*;

use crate::layout::{
    addressable, boxed, content_at, covers, empty_layout, grid_height, grid_width, header_at,
    lemma_free_column_exists, lemma_free_column_unique, lemma_partial_within, lemma_place_boxed,
    lemma_place_rows_boxed, occupied, place, place_row, place_rows, rows_view, shows, Cell, Layout,
};
use crate::table::Table;
use crate::Error;

verus! {

/// A cell together with the position it was anchored at.
struct Placed<T> {
    row: usize,
    col: usize,
    cell: Cell<T>,
}

/// The layout that a list of anchored cells gives, placed in order.
spec fn paint<T>(placed: Seq<Placed<T>>) -> Layout<T>
    decreases placed.len(),
{
    if placed.len() == 0 {
        empty_layout()
    } else {
        place(
            paint(placed.drop_last()),
            placed.last().row as int,
            placed.last().col as int,
            placed.last().cell,
        )
    }
}

/// Whether the footprint of an anchored cell is not empty and lies inside a
/// box of `h` rows and `w` columns.
spec fn inside<T>(p: Placed<T>, h: int, w: int) -> bool {
    &&& 0 < p.cell.row_span
    &&& 0 < p.cell.col_span
    &&& p.row + p.cell.row_span <= h
    &&& p.col + p.cell.col_span <= w
}

/// `busy[c]` is the first row from which column `c` is free again: at and
/// below row `i`, a position is claimed exactly if its row lies above that.
spec fn skyline<T>(busy: Seq<usize>, layout: Layout<T>, i: int) -> bool {
    forall|r: int, c: int|
        i <= r ==> (#[trigger] occupied(layout, r, c) <==> 0 <= c < busy.len() && r < busy[c])
}

/// The height of the skyline at column `c`; nothing stands beyond its end.
spec fn level(busy: Seq<usize>, c: int) -> int {
    if 0 <= c < busy.len() {
        busy[c] as int
    } else {
        0
    }
}

/// The first column at or after `from` whose skyline does not reach below
/// row `i`, where every column before `from` is known to reach below it.
fn first_free(busy: &Vec<usize>, i: usize, from: usize) -> (col: usize)
    requires
        from <= busy@.len(),
        forall|k: int| 0 <= k < from ==> i < busy@[k],
    ensures
        from <= col <= busy@.len(),
        forall|k: int| 0 <= k < col ==> i < busy@[k],
        level(busy@, col as int) <= i,
{
    let mut col: usize = from;
    while col < busy.len() && busy[col] > i
        invariant
            from <= col <= busy@.len(),
            forall|k: int| 0 <= k < col ==> i < busy@[k],
        decreases busy@.len() - col,
    {
        col += 1;
    }
    col
}

/// Raises the skyline to `bottom` over the columns from `col` up to `right`,
/// lengthening it where it ends before `right`.
fn claim(busy: &mut Vec<usize>, col: usize, right: usize, bottom: usize)
    requires
        col <= right,
    ensures
        final(busy)@.len() == if old(busy)@.len() < right {
            right as int
        } else {
            old(busy)@.len() as int
        },
        forall|c: int|
            0 <= c < final(busy)@.len() ==> #[trigger] final(busy)@[c] == if col <= c < right
                && level(old(busy)@, c) < bottom {
                bottom as int
            } else {
                level(old(busy)@, c)
            },
{
    while busy.len() < right
        invariant
            old(busy)@.len() <= busy@.len(),
            busy@.len() <= right || busy@.len() == old(busy)@.len(),
            forall|c: int| 0 <= c < busy@.len() ==> #[trigger] busy@[c] == level(old(busy)@, c),
        decreases right - busy@.len(),
    {
        busy.push(0);
    }
    let ghost grown = busy@;
    let mut c: usize = col;
    while c < right
        invariant
            col <= c <= right <= busy@.len(),
            busy@.len() == grown.len(),
            forall|x: int|
                0 <= x < busy@.len() ==> #[trigger] busy@[x] == if col <= x < c && grown[x]
                    < bottom {
                    bottom
                } else {
                    grown[x]
                },
        decreases right - c,
    {
        if busy[c] < bottom {
            busy[c] = bottom;
        }
        c += 1;
    }
}

/// Raising the skyline over a cell's columns keeps it true of the layout
/// with that cell placed.
proof fn lemma_skyline_place<T>(
    before: Seq<usize>,
    after: Seq<usize>,
    layout: Layout<T>,
    i: int,
    col: int,
    cell: Cell<T>,
)
    requires
        skyline(before, layout, i),
        0 <= i,
        0 < cell.row_span,
        0 < cell.col_span,
        0 <= col,
        before.len() <= after.len(),
        col + cell.col_span <= after.len(),
        i + cell.row_span <= usize::MAX,
        forall|c: int|
            0 <= c < after.len() ==> #[trigger] after[c] == if col <= c < col + cell.col_span
                && level(before, c) < i + cell.row_span {
                i + cell.row_span
            } else {
                level(before, c)
            },
    ensures
        skyline(after, place(layout, i, col, cell), i),
{
    let placed = place(layout, i, col, cell);
    assert forall|r: int, c: int| i <= r implies (#[trigger] occupied(placed, r, c) <==> 0 <= c
        < after.len() && r < after[c]) by {
        assert(occupied(placed, r, c) <==> occupied(layout, r, c) || covers(i, col, cell, r, c));
        assert(occupied(layout, r, c) <==> 0 <= c < before.len() && r < before[c]);
        if 0 <= c < after.len() {
            assert(after[c] == if col <= c < col + cell.col_span && level(before, c) < i
                + cell.row_span {
                i + cell.row_span
            } else {
                level(before, c)
            });
        }
    }
}

/// Anchors every cell: walks the rows in order and gives each cell of a row
/// the first free column. Returns the anchored cells with the size of their
/// box, or `None` when the box outgrows `usize`.
fn anchor_cells<T: Copy>(rows: &Vec<Vec<Cell<T>>>) -> (res: Option<(Vec<Placed<T>>, usize, usize)>)
    ensures
        match res {
            Some((placed, h, w)) => {
                &&& paint(placed@) == place_rows(rows_view(rows@))
                &&& h == place_rows(rows_view(rows@)).height
                &&& w == place_rows(rows_view(rows@)).width
                &&& forall|n: int| 0 <= n < placed@.len() ==> inside(#[trigger] placed@[n], h as int, w as int)
            },
            None => {
                ||| place_rows(rows_view(rows@)).height > usize::MAX
                ||| place_rows(rows_view(rows@)).width > usize::MAX
            },
        },
{
    let ghost view = rows_view(rows@);
    let mut placed: Vec<Placed<T>> = Vec::new();
    let mut busy: Vec<usize> = Vec::new();
    let mut h: usize = 0;
    let mut w: usize = 0;
    let ghost mut state: Layout<T> = empty_layout();
    let mut i: usize = 0;
    proof {
        assert(view.take(0) =~= Seq::empty());
    }
    while i < rows.len()
        invariant
            i <= rows@.len(),
            view == rows_view(rows@),
            state == place_rows(view.take(i as int)),
            boxed(state),
            paint(placed@) == state,
            h == state.height,
            w == state.width,
            skyline(busy@, state, i as int),
            forall|n: int| 0 <= n < placed@.len() ==> inside(#[trigger] placed@[n], h as int, w as int),
        decreases rows@.len() - i,
    {
        let row = &rows[i];
        let ghost base = state;
        let mut cursor: usize = 0;
        let mut j: usize = 0;
        proof {
            assert(view[i as int].take(0) =~= Seq::empty());
        }
        while j < row.len()
            invariant
                i < rows@.len(),
                j <= row@.len(),
                view == rows_view(rows@),
                row@ == view[i as int],
                base == place_rows(view.take(i as int)),
                state == place_row(base, i as int, view[i as int].take(j as int)),
                boxed(state),
                paint(placed@) == state,
                h == state.height,
                w == state.width,
                skyline(busy@, state, i as int),
                cursor <= busy@.len(),
                forall|k: int| 0 <= k < cursor ==> i < busy@[k],
                forall|n: int|
                    0 <= n < placed@.len() ==> inside(#[trigger] placed@[n], h as int, w as int),
            decreases row@.len() - j,
        {
            let cell = row[j];
            let ghost cells = view[i as int].take(j + 1);
            proof {
                assert(cells.drop_last() =~= view[i as int].take(j as int));
                assert(cells.last() == cell);
                lemma_free_column_exists(state, i as int);
                lemma_partial_within(view, i as int, j + 1);
            }
            if cell.row_span > 0 && cell.col_span > 0 {
                let col = first_free(&busy, i, cursor);
                proof {
                    assert(!occupied(state, i as int, col as int));
                    assert forall|k: int| 0 <= k < col implies occupied(state, i as int, k) by {}
                    lemma_free_column_unique(state, i as int, col as int);
                }
                let bottom = match i.checked_add(cell.row_span) {
                    Some(bottom) => bottom,
                    None => {
                        return None;
                    },
                };
                let right = match col.checked_add(cell.col_span) {
                    Some(right) => right,
                    None => {
                        return None;
                    },
                };
                let ghost before = busy@;
                claim(&mut busy, col, right, bottom);
                proof {
                    lemma_skyline_place(before, busy@, state, i as int, col as int, cell);
                    lemma_place_boxed(state, i as int, col as int, cell);
                    let ghost grown = placed@.push(Placed { row: i, col, cell });
                    assert(grown.drop_last() =~= placed@);
                    state = place(state, i as int, col as int, cell);
                }
                placed.push(Placed { row: i, col, cell });
                cursor = col;
                if h < bottom {
                    h = bottom;
                }
                if w < right {
                    w = right;
                }
            }
            j += 1;
        }
        proof {
            assert(view[i as int].take(j as int) =~= view[i as int]);
            let head = view.take(i + 1);
            assert(head.drop_last() =~= view.take(i as int));
            assert(head.last() == view[i as int]);
        }
        i += 1;
    }
    proof {
        assert(view.take(i as int) =~= view);
    }
    Some((placed, h, w))
}

/// Whether `table` shows `layout` everywhere but on the part of the footprint
/// of `cell`, anchored at `(row, col)`, that lies before `(r0, c0)` in
/// row-major order, where it shows `cell`.
spec fn shows_partly<T>(
    table: Table<T>,
    layout: Layout<T>,
    row: int,
    col: int,
    cell: Cell<T>,
    r0: int,
    c0: int,
) -> bool {
    &&& forall|r: int, c: int| #[trigger]
        table.in_bounds(r, c) ==> table.cell(r, c) == if covers(row, col, cell, r, c) && (r < r0
            || (r == r0 && c < c0)) {
            Some(cell.content)
        } else {
            content_at(layout, r, c)
        }
    &&& forall|r: int, c: int| #[trigger]
        table.in_bounds(r, c) ==> table.header(r, c) == if covers(row, col, cell, r, c) && (r
            < r0 || (r == r0 && c < c0)) {
            cell.is_header
        } else {
            header_at(layout, r, c)
        }
}

/// Writes every anchored cell over its footprint, in order, into a grid of
/// `h` rows and `w` columns.
fn fill<T: Copy>(placed: &Vec<Placed<T>>, h: usize, w: usize) -> (table: Table<T>)
    requires
        h * w <= usize::MAX,
        forall|n: int| 0 <= n < placed@.len() ==> inside(#[trigger] placed@[n], h as int, w as int),
    ensures
        table.height() == h,
        table.width() == w,
        forall|r: int, c: int| #[trigger]
            table.in_bounds(r, c) ==> table.cell(r, c) == content_at(paint(placed@), r, c),
        forall|r: int, c: int| #[trigger]
            table.in_bounds(r, c) ==> table.header(r, c) == header_at(paint(placed@), r, c),
{
    let mut table: Table<T> = Table::new((h, w));
    let mut n: usize = 0;
    proof {
        assert(placed@.take(0) =~= Seq::empty());
    }
    while n < placed.len()
        invariant
            n <= placed@.len(),
            table.height() == h,
            table.width() == w,
            forall|k: int| 0 <= k < placed@.len() ==> inside(#[trigger] placed@[k], h as int, w as int),
            forall|r: int, c: int| #[trigger]
                table.in_bounds(r, c) ==> table.cell(r, c) == content_at(
                    paint(placed@.take(n as int)),
                    r,
                    c,
                ),
            forall|r: int, c: int| #[trigger]
                table.in_bounds(r, c) ==> table.header(r, c) == header_at(
                    paint(placed@.take(n as int)),
                    r,
                    c,
                ),
        decreases placed@.len() - n,
    {
        let row = placed[n].row;
        let col = placed[n].col;
        let cell = placed[n].cell;
        let ghost before = paint(placed@.take(n as int));
        proof {
            assert(inside(placed@[n as int], h as int, w as int));
            let head = placed@.take(n + 1);
            assert(head.drop_last() =~= placed@.take(n as int));
            assert(head.last() == placed@[n as int]);
        }
        let mut k: usize = 0;
        while k < cell.row_span
            invariant
                k <= cell.row_span,
                0 < cell.col_span,
                row + cell.row_span <= h,
                col + cell.col_span <= w,
                table.height() == h,
                table.width() == w,
                shows_partly(table, before, row as int, col as int, cell, row + k, col as int),
            decreases cell.row_span - k,
        {
            let mut l: usize = 0;
            while l < cell.col_span
                invariant
                    k < cell.row_span,
                    l <= cell.col_span,
                    row + cell.row_span <= h,
                    col + cell.col_span <= w,
                    table.height() == h,
                    table.width() == w,
                    shows_partly(table, before, row as int, col as int, cell, row + k, col + l),
                decreases cell.col_span - l,
            {
                let ghost prev = table;
                table.put(row + k, col + l, cell.content, cell.is_header);
                proof {
                    assert forall|r: int, c: int| #[trigger] table.in_bounds(r, c) implies {
                        &&& table.cell(r, c) == if covers(row as int, col as int, cell, r, c) && (r
                            < row + k || (r == row + k && c < col + l + 1)) {
                            Some(cell.content)
                        } else {
                            content_at(before, r, c)
                        }
                        &&& table.header(r, c) == if covers(row as int, col as int, cell, r, c)
                            && (r < row + k || (r == row + k && c < col + l + 1)) {
                            cell.is_header
                        } else {
                            header_at(before, r, c)
                        }
                    } by {
                        assert(prev.in_bounds(r, c));
                    }
                }
                l += 1;
            }
            k += 1;
        }
        n += 1;
    }
    proof {
        assert(placed@.take(n as int) =~= placed@);
    }
    table
}

/// Resolves rows of cell descriptors into a dense grid.
///
/// The rows are walked in order. Each cell is anchored at the first column of
/// its row that no earlier cell claims, and claims every position that its
/// spans cover, also in the rows below. The grid has the size of the box
/// around all claims, and one row and one column at least; a slot that
/// nothing claims stays empty.
///
/// Fails with [`Error::InvalidDocument`] exactly when that grid has more
/// slots than `usize` can count.
pub fn resolve<T: Copy>(rows: &Vec<Vec<Cell<T>>>) -> (res: Result<Table<T>, Error>)
    ensures
        match res {
            Ok(table) => {
                &&& addressable(place_rows(rows_view(rows@)))
                &&& shows(table, place_rows(rows_view(rows@)))
            },
            Err(e) => {
                &&& !addressable(place_rows(rows_view(rows@)))
                &&& e is InvalidDocument
            },
        },
{
    let ghost layout = place_rows(rows_view(rows@));
    proof {
        lemma_place_rows_boxed(rows_view(rows@));
    }
    match anchor_cells(rows) {
        None => {
            proof {
                assert(grid_height(layout) * grid_width(layout) > usize::MAX) by (nonlinear_arith)
                    requires
                        grid_height(layout) >= 1,
                        grid_width(layout) >= 1,
                        grid_height(layout) > usize::MAX || grid_width(layout) > usize::MAX,
                ;
            }
            Err(Error::InvalidDocument)
        },
        Some((placed, h, w)) => {
            let height = if h == 0 {
                1
            } else {
                h
            };
            let width = if w == 0 {
                1
            } else {
                w
            };
            match height.checked_mul(width) {
                None => Err(Error::InvalidDocument),
                Some(_) => Ok(fill(&placed, height, width)),
            }
        },
    }
}

} // verus!
