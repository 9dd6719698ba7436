use table_extract::{resolve, Cell};
use table_extract::{Error, Table};

fn data(content: &'static str) -> Cell<&'static str> {
    Cell { is_header: false, row_span: 1, col_span: 1, content }
}

fn header(content: &'static str) -> Cell<&'static str> {
    Cell { is_header: true, row_span: 1, col_span: 1, content }
}

fn spanning(content: &'static str, row_span: usize, col_span: usize) -> Cell<&'static str> {
    Cell { is_header: false, row_span, col_span, content }
}

fn contents(table: &Table<&'static str>) -> Vec<Vec<Option<&'static str>>> {
    table
        .rows()
        .into_iter()
        .map(|row| row.into_iter().map(|slot| slot.copied()).collect())
        .collect()
}

fn flags(table: &Table<&'static str>) -> Vec<Vec<bool>> {
    let rows = table.rows();
    (0..rows.len())
        .map(|row| (0..rows[row].len()).map(|col| table.is_header(row, col)).collect())
        .collect()
}

#[test]
fn table_without_spans_has_its_rows_and_its_longest_row() {
    let table = resolve(&vec![
        vec![data("a"), data("b"), data("c"), data("d")],
        vec![data("e"), data("f"), data("g")],
        vec![data("h"), data("i")],
    ])
    .unwrap();
    assert_eq!(
        contents(&table),
        vec![
            vec![Some("a"), Some("b"), Some("c"), Some("d")],
            vec![Some("e"), Some("f"), Some("g"), None],
            vec![Some("h"), Some("i"), None, None],
        ]
    );
    assert_eq!(table.to_csv().unwrap(), "a,b,c,d\ne,f,g,\nh,i,,\n");
}

#[test]
fn single_row_of_two_cells() {
    let table = resolve(&vec![vec![data("1"), data("2")]]).unwrap();
    assert_eq!(contents(&table), vec![vec![Some("1"), Some("2")]]);
    assert_eq!(table.to_csv().unwrap(), "1,2\n");
}

#[test]
fn row_span_repeats_the_cell_below() {
    let table = resolve(&vec![vec![spanning("A", 2, 1), data("B")], vec![data("C")]]).unwrap();
    assert_eq!(
        contents(&table),
        vec![vec![Some("A"), Some("B")], vec![Some("A"), Some("C")]]
    );
    assert_eq!(table.to_csv().unwrap(), "A,B\nA,C\n");
}

#[test]
fn col_span_repeats_the_cell_beside() {
    let table = resolve(&vec![
        vec![spanning("A", 1, 2), data("B")],
        vec![data("C"), data("D"), data("E")],
    ])
    .unwrap();
    assert_eq!(
        contents(&table),
        vec![
            vec![Some("A"), Some("A"), Some("B")],
            vec![Some("C"), Some("D"), Some("E")],
        ]
    );
    assert_eq!(table.to_csv().unwrap(), "A,A,B\nC,D,E\n");
}

#[test]
fn both_spans_claim_a_block() {
    let table = resolve(&vec![vec![spanning("A", 2, 2), data("B")], vec![data("C")]]).unwrap();
    assert_eq!(table.to_csv().unwrap(), "A,A,B\nA,A,C\n");
}

#[test]
fn cells_skip_what_rows_above_have_claimed() {
    let table = resolve(&vec![
        vec![data("a"), data("b"), data("c"), spanning("d", 2, 1)],
        vec![data("e"), spanning("f", 1, 2)],
        vec![data("i"), data("j"), data("k"), data("l")],
    ])
    .unwrap();
    assert_eq!(table.to_csv().unwrap(), "a,b,c,d\ne,f,f,d\ni,j,k,l\n");

    let table = resolve(&vec![
        vec![data("a"), data("b"), data("c"), data("d")],
        vec![data("e"), spanning("f", 2, 2), data("g")],
        vec![data("h"), data("i")],
    ])
    .unwrap();
    assert_eq!(table.to_csv().unwrap(), "a,b,c,d\ne,f,f,g\nh,f,f,i\n");

    let table = resolve(&vec![
        vec![spanning("a", 3, 1), data("b")],
        vec![data("c")],
        vec![data("d"), data("e")],
    ])
    .unwrap();
    assert_eq!(table.to_csv().unwrap(), "a,b,\na,c,\na,d,e\n");
}

#[test]
fn wide_cell_takes_over_what_a_row_above_claimed_beside_its_anchor() {
    let table = resolve(&vec![
        vec![data("a"), data("b"), spanning("c", 2, 1), data("d")],
        vec![data("e"), spanning("f", 1, 3)],
        vec![data("i"), data("j"), data("k"), data("l")],
    ])
    .unwrap();
    assert_eq!(table.to_csv().unwrap(), "a,b,c,d\ne,f,f,f\ni,j,k,l\n");
}

#[test]
fn header_flag_follows_the_cell_that_holds_the_position() {
    let mut wide = header("H");
    wide.row_span = 2;
    wide.col_span = 2;
    let table = resolve(&vec![vec![wide, data("x")], vec![data("y")], vec![data("z"), header("h")]])
        .unwrap();
    assert_eq!(table.to_csv().unwrap(), "H,H,x\nH,H,y\nz,h,\n");
    assert_eq!(
        flags(&table),
        vec![
            vec![true, true, false],
            vec![true, true, false],
            vec![false, true, false],
        ]
    );
}

#[test]
fn header_flag_goes_with_a_position_that_is_taken_over() {
    let mut tall = header("B");
    tall.row_span = 2;
    let table = resolve(&vec![vec![data("A"), tall], vec![spanning("C", 1, 2)]]).unwrap();
    assert_eq!(
        contents(&table),
        vec![vec![Some("A"), Some("B")], vec![Some("C"), Some("C")]]
    );
    assert_eq!(flags(&table), vec![vec![false, true], vec![false, false]]);
}

#[test]
fn table_without_cells_gives_one_empty_slot() {
    let none: Vec<Vec<Cell<&'static str>>> = Vec::new();
    let table = resolve(&none).unwrap();
    assert_eq!(contents(&table), vec![vec![None]]);
    assert_eq!(flags(&table), vec![vec![false]]);
    assert_eq!(table.to_csv().unwrap(), "\"\"\n");

    let table = resolve(&vec![Vec::<Cell<&'static str>>::new(), Vec::new()]).unwrap();
    assert_eq!(contents(&table), vec![vec![None]]);
}

#[test]
fn rows_without_cells_count_only_above_a_cell() {
    let table = resolve(&vec![vec![data("a")], Vec::new()]).unwrap();
    assert_eq!(contents(&table), vec![vec![Some("a")]]);

    let table = resolve(&vec![vec![data("a")], Vec::new(), vec![data("b")]]).unwrap();
    assert_eq!(contents(&table), vec![vec![Some("a")], vec![None], vec![Some("b")]]);

    let table = resolve(&vec![Vec::new(), vec![data("b")]]).unwrap();
    assert_eq!(contents(&table), vec![vec![None], vec![Some("b")]]);
}

#[test]
fn row_span_beyond_the_last_row_adds_rows() {
    let table = resolve(&vec![vec![spanning("a", 3, 1), data("b")]]).unwrap();
    assert_eq!(
        contents(&table),
        vec![
            vec![Some("a"), Some("b")],
            vec![Some("a"), None],
            vec![Some("a"), None],
        ]
    );
}

#[test]
fn cell_that_spans_nothing_is_not_placed() {
    let table = resolve(&vec![vec![spanning("a", 0, 1), data("b"), spanning("c", 1, 0), data("d")]])
        .unwrap();
    assert_eq!(contents(&table), vec![vec![Some("b"), Some("d")]]);
    let table = resolve(&vec![vec![spanning("a", 0, 5), spanning("c", usize::MAX, 0)]]).unwrap();
    assert_eq!(contents(&table), vec![vec![None]]);
}

#[test]
fn table_beyond_what_can_be_addressed_is_refused() {
    let result = resolve(&vec![vec![data("a")], vec![spanning("b", usize::MAX, 1)]]);
    assert!(matches!(result, Err(Error::InvalidDocument)));
    let result = resolve(&vec![vec![data("a"), spanning("b", 1, usize::MAX)]]);
    assert!(matches!(result, Err(Error::InvalidDocument)));
    let result = resolve(&vec![vec![spanning("a", usize::MAX, 1), data("b")]]);
    assert!(matches!(result, Err(Error::InvalidDocument)));
}

#[test]
fn resolving_leaves_the_rows_as_they_are() {
    let rows = vec![vec![spanning("A", 2, 1), data("B")], vec![data("C")]];
    let first = resolve(&rows).unwrap();
    let second = resolve(&rows).unwrap();
    assert_eq!(contents(&first), contents(&second));
    assert_eq!(rows[0][0].content, "A");
    assert_eq!(rows[0][0].row_span, 2);
}

#[test]
fn cells_of_a_row_stand_side_by_side_below_single_rows() {
    let table = resolve(&vec![
        vec![data("a"), data("b")],
        vec![spanning("c", 1, 2), spanning("d", 2, 3), data("e"), spanning("f", 1, 2)],
        vec![data("g"), data("h")],
    ])
    .unwrap();
    assert_eq!(
        contents(&table),
        vec![
            vec![Some("a"), Some("b"), None, None, None, None, None, None],
            vec![
                Some("c"),
                Some("c"),
                Some("d"),
                Some("d"),
                Some("d"),
                Some("e"),
                Some("f"),
                Some("f")
            ],
            vec![Some("g"), Some("h"), Some("d"), Some("d"), Some("d"), None, None, None],
        ]
    );
}
