//! The grid container: a fixed-size, row-major store of optional cell values
//! with one header flag per slot.

use sxd_xpath::nodeset::Node;
use vstd::prelude::*;

use crate::csv_text::{document_text, render_csv, texts_of};
use crate::node_utils::is_header_name;
use crate::outside::{element_name, node_element, node_string_value};
use crate::shown::Shown;
use crate::Error;

verus! {

/// A dense grid of `size.0` rows and `size.1` columns. Every slot is either
/// empty or holds one value, and carries a header flag.
pub struct Table<T> {
    size: (usize, usize),
    cells: Vec<Option<T>>,
    headers: Vec<bool>,
}

impl<T> Table<T> {
    #[verifier::type_invariant]
    spec fn well_formed(self) -> bool {
        &&& self.cells@.len() == self.size.0 * self.size.1
        &&& self.headers@.len() == self.size.0 * self.size.1
    }

    /// Number of rows.
    pub closed spec fn height(&self) -> int {
        self.size.0 as int
    }

    /// Number of columns.
    pub closed spec fn width(&self) -> int {
        self.size.1 as int
    }

    /// Whether `(row, col)` addresses a slot of this grid.
    pub open spec fn in_bounds(&self, row: int, col: int) -> bool {
        0 <= row < self.height() && 0 <= col < self.width()
    }

    /// The content of slot `(row, col)`; `None` for an empty slot and for a
    /// position outside the grid.
    pub closed spec fn cell(&self, row: int, col: int) -> Option<T> {
        if 0 <= row < self.size.0 && 0 <= col < self.size.1 {
            self.cells@[row * (self.size.1 as int) + col]
        } else {
            None
        }
    }

    /// The header flag of slot `(row, col)`; `false` outside the grid.
    pub closed spec fn header(&self, row: int, col: int) -> bool {
        if 0 <= row < self.size.0 && 0 <= col < self.size.1 {
            self.headers@[row * (self.size.1 as int) + col]
        } else {
            false
        }
    }
}

/// Row-major offsets of in-bounds positions stay inside the store, and two
/// positions share an offset only if they are the same position.
proof fn lemma_offset(rows: int, cols: int, row: int, col: int)
    requires
        0 <= row < rows,
        0 <= col < cols,
    ensures
        0 <= row * cols <= row * cols + col < rows * cols,
        (row * cols + col) / cols == row,
        (row * cols + col) % cols == col,
{
    vstd::arithmetic::div_mod::lemma_fundamental_div_mod_converse(row * cols + col, cols, row, col);
    assert(row * cols + col < rows * cols) by (nonlinear_arith)
        requires
            0 <= row < rows,
            0 <= col < cols,
    ;
    assert(0 <= row * cols) by (nonlinear_arith)
        requires
            0 <= row,
            0 < cols,
    ;
}

impl<T> Table<T> {
    /// Writes `item` into slot `(row, col)`. The header flag of the slot and
    /// every other slot stay as they were.
    pub fn set(&mut self, row: usize, col: usize, item: T)
        requires
            old(self).in_bounds(row as int, col as int),
        ensures
            final(self).height() == old(self).height(),
            final(self).width() == old(self).width(),
            final(self).cell(row as int, col as int) == Some(item),
            forall|r: int, c: int|
                !(r == row && c == col) ==> #[trigger] final(self).cell(r, c) == old(self).cell(r, c),
            forall|r: int, c: int| #[trigger] final(self).header(r, c) == old(self).header(r, c),
    {
        proof {
            use_type_invariant(&*self);
            lemma_offset(self.size.0 as int, self.size.1 as int, row as int, col as int);
            assert(self.cells.len() == self.size.0 * self.size.1);
        }
        let index = row * self.size.1 + col;
        self.cells[index] = Some(item);
        proof {
            assert forall|r: int, c: int| !(r == row && c == col) implies #[trigger] self.cell(r, c)
                == old(self).cell(r, c) by {
                if 0 <= r < self.size.0 && 0 <= c < self.size.1 {
                    lemma_offset(self.size.0 as int, self.size.1 as int, r, c);
                }
            }
        }
    }
}

impl<T> Table<T> {
    /// Raises the header flag of slot `(row, col)`. Contents and every other
    /// flag stay as they were.
    pub fn set_header(&mut self, row: usize, col: usize)
        requires
            old(self).in_bounds(row as int, col as int),
        ensures
            final(self).height() == old(self).height(),
            final(self).width() == old(self).width(),
            final(self).header(row as int, col as int),
            forall|r: int, c: int|
                !(r == row && c == col) ==> #[trigger] final(self).header(r, c) == old(self).header(
                    r,
                    c,
                ),
            forall|r: int, c: int| #[trigger] final(self).cell(r, c) == old(self).cell(r, c),
    {
        proof {
            use_type_invariant(&*self);
            lemma_offset(self.size.0 as int, self.size.1 as int, row as int, col as int);
            assert(self.headers.len() == self.size.0 * self.size.1);
        }
        let index = row * self.size.1 + col;
        self.headers[index] = true;
        proof {
            assert forall|r: int, c: int| !(r == row && c == col) implies #[trigger] self.header(
                r,
                c,
            ) == old(self).header(r, c) by {
                if 0 <= r < self.size.0 && 0 <= c < self.size.1 {
                    lemma_offset(self.size.0 as int, self.size.1 as int, r, c);
                }
            }
        }
    }

    /// The header flag of slot `(row, col)`.
    pub fn is_header(&self, row: usize, col: usize) -> (flag: bool)
        requires
            self.in_bounds(row as int, col as int),
        ensures
            flag == self.header(row as int, col as int),
    {
        proof {
            use_type_invariant(self);
            lemma_offset(self.size.0 as int, self.size.1 as int, row as int, col as int);
            assert(self.headers.len() == self.size.0 * self.size.1);
        }
        self.headers[row * self.size.1 + col]
    }

    /// Writes content and header flag of slot `(row, col)` at once.
    pub(crate) fn put(&mut self, row: usize, col: usize, item: T, flag: bool)
        requires
            old(self).in_bounds(row as int, col as int),
        ensures
            final(self).height() == old(self).height(),
            final(self).width() == old(self).width(),
            final(self).cell(row as int, col as int) == Some(item),
            final(self).header(row as int, col as int) == flag,
            forall|r: int, c: int|
                !(r == row && c == col) ==> #[trigger] final(self).cell(r, c) == old(self).cell(r, c),
            forall|r: int, c: int|
                !(r == row && c == col) ==> #[trigger] final(self).header(r, c) == old(self).header(
                    r,
                    c,
                ),
    {
        proof {
            use_type_invariant(&*self);
            lemma_offset(self.size.0 as int, self.size.1 as int, row as int, col as int);
            assert(self.cells.len() == self.size.0 * self.size.1);
            assert(self.headers.len() == self.size.0 * self.size.1);
        }
        let index = row * self.size.1 + col;
        self.cells[index] = Some(item);
        self.headers[index] = flag;
        proof {
            assert forall|r: int, c: int| !(r == row && c == col) implies (#[trigger] self.cell(r, c)
                == old(self).cell(r, c)) by {
                if 0 <= r < self.size.0 && 0 <= c < self.size.1 {
                    lemma_offset(self.size.0 as int, self.size.1 as int, r, c);
                }
            }
            assert forall|r: int, c: int| !(r == row && c == col) implies (#[trigger] self.header(
                r,
                c,
            ) == old(self).header(r, c)) by {
                if 0 <= r < self.size.0 && 0 <= c < self.size.1 {
                    lemma_offset(self.size.0 as int, self.size.1 as int, r, c);
                }
            }
        }
    }
}

impl<T> Table<T> where T: Clone {
    /// A grid of `size.0` rows and `size.1` columns with every slot empty and
    /// every header flag down.
    pub fn new(size: (usize, usize)) -> (table: Self)
        requires
            size.0 * size.1 <= usize::MAX,
        ensures
            table.height() == size.0,
            table.width() == size.1,
            forall|r: int, c: int| #[trigger] table.cell(r, c) is None,
            forall|r: int, c: int| !#[trigger] table.header(r, c),
    {
        let total = size.0 * size.1;
        let mut cells: Vec<Option<T>> = Vec::new();
        let mut headers: Vec<bool> = Vec::new();
        let mut n: usize = 0;
        while n < total
            invariant
                n <= total,
                cells@.len() == n,
                headers@.len() == n,
                forall|k: int| 0 <= k < n ==> cells@[k] is None,
                forall|k: int| 0 <= k < n ==> !headers@[k],
            decreases total - n,
        {
            cells.push(None);
            headers.push(false);
            n += 1;
        }
        let table = Table { size, cells, headers };
        proof {
            assert forall|r: int, c: int| #[trigger] table.cell(r, c) is None by {
                if 0 <= r < size.0 && 0 <= c < size.1 {
                    lemma_offset(size.0 as int, size.1 as int, r, c);
                }
            }
            assert forall|r: int, c: int| !#[trigger] table.header(r, c) by {
                if 0 <= r < size.0 && 0 <= c < size.1 {
                    lemma_offset(size.0 as int, size.1 as int, r, c);
                }
            }
        }
        table
    }
}

impl<T> Table<T> {
    /// The slots row by row: top to bottom, and left to right within a row.
    /// A populated slot gives a reference to its value.
    pub fn rows(&self) -> (rows: Vec<Vec<Option<&T>>>)
        ensures
            rows@.len() == self.height(),
            forall|r: int| 0 <= r < rows@.len() ==> (#[trigger] rows@[r])@.len() == self.width(),
            forall|r: int, c: int|
                self.in_bounds(r, c) ==> match #[trigger] rows@[r]@[c] {
                    Some(item) => self.cell(r, c) == Some(*item),
                    None => self.cell(r, c) is None,
                },
    {
        proof {
            use_type_invariant(self);
        }
        let mut rows: Vec<Vec<Option<&T>>> = Vec::new();
        let mut i: usize = 0;
        while i < self.size.0
            invariant
                i <= self.size.0,
                self.cells@.len() == self.size.0 * self.size.1,
                rows@.len() == i,
                forall|r: int| 0 <= r < i ==> (#[trigger] rows@[r])@.len() == self.size.1,
                forall|r: int, c: int|
                    0 <= r < i && 0 <= c < self.size.1 ==> match #[trigger] rows@[r]@[c] {
                        Some(item) => self.cell(r, c) == Some(*item),
                        None => self.cell(r, c) is None,
                    },
            decreases self.size.0 - i,
        {
            let mut row: Vec<Option<&T>> = Vec::new();
            let mut j: usize = 0;
            while j < self.size.1
                invariant
                    i < self.size.0,
                    j <= self.size.1,
                    self.cells@.len() == self.size.0 * self.size.1,
                    row@.len() == j,
                    forall|c: int|
                        0 <= c < j ==> match #[trigger] row@[c] {
                            Some(item) => self.cell(i as int, c) == Some(*item),
                            None => self.cell(i as int, c) is None,
                        },
                decreases self.size.1 - j,
            {
                proof {
                    lemma_offset(self.size.0 as int, self.size.1 as int, i as int, j as int);
                    assert(self.cells.len() == self.size.0 * self.size.1);
                }
                row.push(self.cells[i * self.size.1 + j].as_ref());
                j += 1;
            }
            rows.push(row);
            i += 1;
        }
        rows
    }
}

impl<T> Table<T> where T: Clone {
    /// A new grid of the same size and with the same header flags, in which
    /// every populated slot holds what `f` makes of its position and value.
    /// Empty slots stay empty, and this grid is left as it is.
    pub fn map<T2>(&self, f: impl Fn(usize, usize, &T) -> T2) -> (mapped: Table<T2>) where
        T2: Clone,

        requires
            forall|r: usize, c: usize, item: T|
                self.in_bounds(r as int, c as int) && self.cell(r as int, c as int) == Some(item)
                    ==> call_requires(f, (r, c, &item)),
        ensures
            maps_to(*self, f, mapped),
    {
        map_table(self, f)
    }
}

/// Whether `mapped` is `table` with `f` applied to each populated slot: the
/// size and the header flags are the same, an empty slot is empty, and a
/// populated one holds a result of `f` on its position and value.
pub open spec fn maps_to<S, T, F: Fn(usize, usize, &T) -> S>(
    table: Table<T>,
    f: F,
    mapped: Table<S>,
) -> bool {
    &&& mapped.height() == table.height()
    &&& mapped.width() == table.width()
    &&& forall|r: int, c: int| #[trigger] mapped.header(r, c) == table.header(r, c)
    &&& forall|r: int, c: int|
        table.in_bounds(r, c) ==> match #[trigger] table.cell(r, c) {
            Some(item) => mapped.cell(r, c) matches Some(made) && call_ensures(
                f,
                (r as usize, c as usize, &item),
                made,
            ),
            None => mapped.cell(r, c) is None,
        }
}

/// Builds the grid that [`Table::map`] returns.
fn map_table<S, T, F>(table: &Table<T>, f: F) -> (mapped: Table<S>) where
    F: Fn(usize, usize, &T) -> S,
    S: Clone,

    requires
        forall|r: usize, c: usize, item: T|
            table.in_bounds(r as int, c as int) && table.cell(r as int, c as int) == Some(item)
                ==> call_requires(f, (r, c, &item)),
    ensures
        maps_to(*table, f, mapped),
{
    proof {
        use_type_invariant(table);
    }
    let rows = table.size.0;
    let cols = table.size.1;
    let mut cells: Vec<Option<S>> = Vec::new();
    let mut headers: Vec<bool> = Vec::new();
    let mut i: usize = 0;
    while i < rows
        invariant
            i <= rows,
            rows == table.size.0,
            cols == table.size.1,
            table.cells@.len() == rows * cols,
            table.headers@.len() == rows * cols,
            cells@.len() == i * cols,
            headers@.len() == i * cols,
            forall|n: int| 0 <= n < headers@.len() ==> headers@[n] == table.headers@[n],
            forall|n: int|
                0 <= n < cells@.len() ==> match table.cells@[n] {
                    Some(item) => (#[trigger] cells@[n]) matches Some(made) && call_ensures(
                        f,
                        ((n / cols as int) as usize, (n % cols as int) as usize, &item),
                        made,
                    ),
                    None => cells@[n] is None,
                },
            forall|r: usize, c: usize, item: T|
                table.in_bounds(r as int, c as int) && table.cell(r as int, c as int) == Some(item)
                    ==> call_requires(f, (r, c, &item)),
        decreases rows - i,
    {
        let mut j: usize = 0;
        while j < cols
            invariant
                i < rows,
                j <= cols,
                rows == table.size.0,
                cols == table.size.1,
                table.cells@.len() == rows * cols,
                table.headers@.len() == rows * cols,
                cells@.len() == i * cols + j,
                headers@.len() == i * cols + j,
                forall|n: int| 0 <= n < headers@.len() ==> headers@[n] == table.headers@[n],
                forall|n: int|
                    0 <= n < cells@.len() ==> match table.cells@[n] {
                        Some(item) => (#[trigger] cells@[n]) matches Some(made) && call_ensures(
                            f,
                            ((n / cols as int) as usize, (n % cols as int) as usize, &item),
                            made,
                        ),
                        None => cells@[n] is None,
                    },
                forall|r: usize, c: usize, item: T|
                    table.in_bounds(r as int, c as int) && table.cell(r as int, c as int) == Some(
                        item,
                    ) ==> call_requires(f, (r, c, &item)),
            decreases cols - j,
        {
            proof {
                lemma_offset(rows as int, cols as int, i as int, j as int);
                assert(table.cells.len() == rows * cols);
                assert(table.headers.len() == rows * cols);
            }
            let index = i * cols + j;
            let made = match &table.cells[index] {
                Some(item) => {
                    proof {
                        assert(table.in_bounds(i as int, j as int));
                        assert(table.cell(i as int, j as int) == Some(*item));
                    }
                    Some(f(i, j, item))
                },
                None => None,
            };
            cells.push(made);
            headers.push(table.headers[index]);
            j += 1;
        }
        proof {
            assert((i + 1) * cols == i * cols + cols) by (nonlinear_arith);
        }
        i += 1;
    }
    let mapped = Table { size: (rows, cols), cells, headers };
    proof {
        assert forall|r: int, c: int| #[trigger] mapped.header(r, c) == table.header(r, c) by {
            if 0 <= r < rows && 0 <= c < cols {
                lemma_offset(rows as int, cols as int, r, c);
            }
        }
        assert forall|r: int, c: int| table.in_bounds(r, c) implies match #[trigger] table.cell(
            r,
            c,
        ) {
            Some(item) => mapped.cell(r, c) matches Some(made) && call_ensures(
                f,
                (r as usize, c as usize, &item),
                made,
            ),
            None => mapped.cell(r, c) is None,
        } by {
            lemma_offset(rows as int, cols as int, r, c);
            let n = r * cols + c;
            assert(cells@[n] == mapped.cell(r, c));
        }
    }
    mapped
}

/// Whether two grids have the same size, the same header flags and the same
/// populated slots.
pub open spec fn same_shape<S, T>(a: Table<S>, b: Table<T>) -> bool {
    &&& a.height() == b.height()
    &&& a.width() == b.width()
    &&& forall|r: int, c: int| #[trigger] a.header(r, c) == b.header(r, c)
    &&& forall|r: int, c: int| a.in_bounds(r, c) ==> (#[trigger] a.cell(r, c) is Some <==> b.cell(r, c) is Some)
}

/// Mapping changes values and nothing else: the mapped grid has the size,
/// the header flags and the populated slots of the grid it was made from.
pub proof fn lemma_map_keeps_shape<S, T, F: Fn(usize, usize, &T) -> S>(
    table: Table<T>,
    f: F,
    mapped: Table<S>,
)
    requires
        maps_to(table, f, mapped),
    ensures
        same_shape(table, mapped),
{
    assert forall|r: int, c: int| table.in_bounds(r, c) implies (#[trigger] table.cell(r, c) is Some
        <==> mapped.cell(r, c) is Some) by {}
}

impl Table<Node<'_>> {
    /// The grid of the cells' texts: each node gives its string value.
    pub fn to_string_table(&self) -> (texts: Table<String>)
        ensures
            same_shape(*self, texts),
    {
        let f = |_r: usize, _c: usize, node: &Node| -> (text: String) { node_string_value(node) };
        let texts = self.map(f);
        proof {
            lemma_map_keeps_shape(*self, f, texts);
        }
        texts
    }

    /// The grid of the cells' texts, each with the kind of its node: `true`
    /// for a header cell element, `false` for any other node.
    pub fn to_string_table_with_header(&self) -> (texts: Table<(String, bool)>)
        ensures
            same_shape(*self, texts),
    {
        let f = |_r: usize, _c: usize, node: &Node| -> (pair: (String, bool))
            {
                match node_element(*node) {
                    None => (node_string_value(node), false),
                    Some(element) => {
                        let (namespace, local) = element_name(element);
                        let is_header = is_header_name(namespace, local);
                        (node_string_value(node), is_header)
                    },
                }
            };
        let texts = self.map(f);
        proof {
            lemma_map_keeps_shape(*self, f, texts);
        }
        texts
    }
}

/// The text of a slot: the text of its value, and the empty text where the
/// slot is empty.
pub open spec fn slot_text<T: Shown>(slot: Option<T>) -> Seq<char> {
    match slot {
        Some(item) => item.shown(),
        None => Seq::empty(),
    }
}

impl<T> Table<T> where T: Shown {
    /// The fields of the grid as they go into rendered text: for each row,
    /// top to bottom, the text of each slot, left to right.
    pub open spec fn texts(&self) -> Seq<Seq<Seq<char>>> {
        Seq::new(
            self.height() as nat,
            |r: int| Seq::new(self.width() as nat, |c: int| slot_text(self.cell(r, c))),
        )
    }

    /// The text of each slot, row by row: the text of the value of a
    /// populated slot, and the empty text for an empty slot.
    pub fn to_text_rows(&self) -> (texts: Vec<Vec<String>>)
        ensures
            texts@.len() == self.height(),
            forall|r: int| 0 <= r < texts@.len() ==> (#[trigger] texts@[r])@.len() == self.width(),
            forall|r: int, c: int|
                self.in_bounds(r, c) ==> (#[trigger] texts@[r]@[c])@ == slot_text(self.cell(r, c)),
            texts_of(texts@) == self.texts(),
    {
        let rows = self.rows();
        let mut texts: Vec<Vec<String>> = Vec::new();
        let mut i: usize = 0;
        while i < rows.len()
            invariant
                i <= rows@.len(),
                rows@.len() == self.height(),
                forall|r: int| 0 <= r < rows@.len() ==> (#[trigger] rows@[r])@.len() == self.width(),
                forall|r: int, c: int|
                    self.in_bounds(r, c) ==> match #[trigger] rows@[r]@[c] {
                        Some(item) => self.cell(r, c) == Some(*item),
                        None => self.cell(r, c) is None,
                    },
                texts@.len() == i,
                forall|r: int| 0 <= r < i ==> (#[trigger] texts@[r])@.len() == self.width(),
                forall|r: int, c: int|
                    0 <= r < i && 0 <= c < self.width() ==> (#[trigger] texts@[r]@[c])@
                        == slot_text(self.cell(r, c)),
            decreases rows@.len() - i,
        {
            let row = &rows[i];
            let mut line: Vec<String> = Vec::new();
            let mut j: usize = 0;
            while j < row.len()
                invariant
                    i < rows@.len(),
                    row@ == rows@[i as int]@,
                    row@.len() == self.width(),
                    rows@.len() == self.height(),
                    j <= row@.len(),
                    forall|r: int, c: int|
                        self.in_bounds(r, c) ==> match #[trigger] rows@[r]@[c] {
                            Some(item) => self.cell(r, c) == Some(*item),
                            None => self.cell(r, c) is None,
                        },
                    line@.len() == j,
                    forall|c: int|
                        0 <= c < j ==> (#[trigger] line@[c])@ == slot_text(self.cell(i as int, c)),
                decreases row@.len() - j,
            {
                proof {
                    assert(self.in_bounds(i as int, j as int));
                    assert(rows@[i as int]@[j as int] == row@[j as int]);
                }
                let text = match row[j] {
                    Some(item) => item.show(),
                    None => String::new(),
                };
                line.push(text);
                j += 1;
            }
            texts.push(line);
            i += 1;
        }
        proof {
            let written = texts_of(texts@);
            let stated = self.texts();
            assert(written.len() == stated.len());
            assert forall|r: int| 0 <= r < written.len() implies written[r] == stated[r] by {
                assert(written[r].len() == stated[r].len());
                assert forall|c: int| 0 <= c < written[r].len() implies written[r][c]
                    == stated[r][c] by {
                    assert(self.in_bounds(r, c));
                    assert(texts@[r]@[c]@ == slot_text(self.cell(r, c)));
                }
                assert(written[r] =~= stated[r]);
            }
            assert(written =~= stated);
        }
        texts
    }

    /// Renders the grid as comma-separated text: one line for each row, top
    /// to bottom, with the text of each slot as a field, left to right. An
    /// empty slot gives an empty field.
    ///
    /// It always succeeds, and the text that comes back is
    /// [`document_text`] of the fields of the grid. A field stands between
    /// double quotes exactly if it holds a comma, a double quote, a carriage
    /// return or a line feed, with each double quote in it written twice;
    /// fields are parted by commas, and each row ends with one line feed.
    pub fn to_csv(&self) -> (res: Result<String, Error>)
        ensures
            res is Ok,
            res matches Ok(text) ==> text@ == document_text(self.texts()),
    {
        let texts = self.to_text_rows();
        render_csv(&texts)
    }
}

} // verus!
