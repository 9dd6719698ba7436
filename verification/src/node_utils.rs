//! The extraction boundary: finds the tables of a parsed document, reads
//! their rows and cells through the query engine, and resolves each into a
//! grid of nodes.

use sxd_xpath::nodeset::Node;
use sxd_xpath::Value;
use vstd::prelude::*;
use vstd::std_specs::iter::IteratorSpec;

use crate::element_utils::extract_rowspan_and_colspan;
use crate::layout::{is_resolved, rows_view, spans_positive, Cell};
use crate::outside::{
    compiles, element_name, no_xpath, node_element, nodes_in_document_order, query,
};
use crate::query_text::{lemma_plain_text_is_supported, supported_query};
use crate::resolve::resolve;
use crate::table::Table;
use crate::Error;

verus! {

/// Whether a name is that of a header cell: `th`, in no namespace.
pub open spec fn header_name(namespace: Option<Seq<char>>, local: Seq<char>) -> bool {
    namespace is None && local == seq!['t', 'h']
}

/// Whether an element's name, given as its namespace and local part, is that
/// of a header cell.
pub fn is_header_name(namespace: Option<&str>, local: &str) -> (flag: bool)
    ensures
        flag == header_name(crate::element_utils::attr_view(namespace), local@),
{
    broadcast use vstd::string::group_string_axioms;

    if namespace.is_some() {
        return false;
    }
    let mut chars = local.chars();
    let ghost all = chars.remaining();
    let first = chars.next();
    let ghost rest = chars.remaining();
    let second = chars.next();
    let ghost tail = chars.remaining();
    let third = chars.next();
    proof {
        if all.len() > 0 {
            assert(rest == all.drop_first());
            if rest.len() > 0 {
                assert(tail == rest.drop_first());
            }
        }
        if first == Some('t') && second == Some('h') && third.is_none() {
            assert(local@ =~= seq!['t', 'h']);
        }
    }
    first == Some('t') && second == Some('h') && third.is_none()
}

/// What evaluating a query comes to, given what the engine made of it: the
/// value, where it gave one; the error `missing`, where the text held no
/// expression; and the engine's own error, where it failed.
pub fn value_of_outcome<'a>(
    outcome: Result<Option<Value<'a>>, crate::outside::XPathError>,
    missing: crate::outside::XPathError,
) -> (res: Result<Value<'a>, crate::outside::XPathError>)
    ensures
        match outcome {
            Ok(Some(value)) => res == Ok::<Value<'a>, crate::outside::XPathError>(value),
            Ok(None) => res == Err::<Value<'a>, crate::outside::XPathError>(missing),
            Err(failure) => res == Err::<Value<'a>, crate::outside::XPathError>(failure),
        },
{
    match outcome {
        Ok(Some(value)) => Ok(value),
        Ok(None) => Err(missing),
        Err(failure) => Err(failure),
    }
}

/// Evaluates the query `expr` with `node` as the context node.
///
/// The text is compiled first: a text that does not parse gives the parser's
/// error, and one that holds no expression the engine's error for that. The
/// compiled query is then evaluated, and its value or its failure is
/// returned as the engine gives it: see [`value_of_outcome`]. A value
/// therefore comes back only for a text that compiles to an expression.
///
/// The text must be one that the engine takes without a panic: see
/// [`supported_query`], and [`crate::query_text::is_supported_query`] to
/// test it.
pub fn evaluate_xpath_node<'a>(node: impl Into<Node<'a>>, expr: &str) -> (res: Result<
    Value<'a>,
    crate::outside::XPathError,
>)
    requires
        supported_query(expr@),
    ensures
        compiles(expr@) != Some(true) ==> res is Err,
{
    let outcome = query(node.into(), expr);
    assert(compiles(expr@) != Some(true) ==> compiles(expr@) is None || compiles(expr@) == Some(
        false,
    ));
    value_of_outcome(outcome, no_xpath())
}

/// The nodes that the query `expr` selects from `node`, in document order.
/// `Ok(None)` stands for a query that gave something else than nodes. A
/// text that does not compile to an expression gives an error.
fn select<'a>(node: impl Into<Node<'a>>, expr: &str) -> (res: Result<
    Option<Vec<Node<'a>>>,
    crate::outside::XPathError,
>)
    requires
        supported_query(expr@),
    ensures
        compiles(expr@) != Some(true) ==> res is Err,
{
    match evaluate_xpath_node(node, expr) {
        Ok(value) => Ok(nodes_in_document_order(value)),
        Err(e) => Err(e),
    }
}

/// What the search for tables comes to, given what the query for them gave:
/// the nodes it selected; [`Error::TableNotFound`] where it gave something
/// else than nodes; and its own failure, inside
/// [`Error::XPathEvaluationError`], where it failed.
pub fn found_tables<'a>(
    found: Result<Option<Vec<Node<'a>>>, crate::outside::XPathError>,
) -> (res: Result<Vec<Node<'a>>, Error>)
    ensures
        match found {
            Ok(Some(nodes)) => res == Ok::<Vec<Node<'a>>, Error>(nodes),
            Ok(None) => res matches Err(e) && e is TableNotFound,
            Err(failure) => res matches Err(e) && e == Error::XPathEvaluationError(failure),
        },
{
    match found {
        Ok(Some(nodes)) => Ok(nodes),
        Ok(None) => Err(Error::TableNotFound),
        Err(failure) => Err(Error::XPathEvaluationError(failure)),
    }
}

/// What the search for the rows of a table, or for the cells of a row, comes
/// to, given what the query for them gave: the nodes it selected;
/// [`Error::InvalidDocument`] where it gave something else than nodes; and
/// its own failure, unchanged inside [`Error::XPathEvaluationError`], where
/// it failed.
pub fn found_parts<'a>(
    found: Result<Option<Vec<Node<'a>>>, crate::outside::XPathError>,
) -> (res: Result<Vec<Node<'a>>, Error>)
    ensures
        match found {
            Ok(Some(nodes)) => res == Ok::<Vec<Node<'a>>, Error>(nodes),
            Ok(None) => res matches Err(e) && e is InvalidDocument,
            Err(failure) => res matches Err(e) && e == Error::XPathEvaluationError(failure),
        },
{
    match found {
        Ok(Some(nodes)) => Ok(nodes),
        Ok(None) => Err(Error::InvalidDocument),
        Err(failure) => Err(Error::XPathEvaluationError(failure)),
    }
}

/// A table node, with the queries that read its rows and cells.
struct TableSupport<'a>(Node<'a>);

impl<'a> TableSupport<'a> {
    /// The rows of the table's body, in document order: what the query
    /// `./tbody/tr` selects from the table node. A failure of the query,
    /// which a text that does not compile to an expression is, comes back
    /// inside [`Error::XPathEvaluationError`]; a result that is no set of
    /// nodes gives [`Error::InvalidDocument`].
    fn tr_nodes(&self) -> (res: Result<Vec<Node<'a>>, Error>)
        ensures
            res matches Err(e) ==> e is InvalidDocument || e is XPathEvaluationError,
            compiles("./tbody/tr"@) != Some(true) ==> (res matches Err(e)
                && e is XPathEvaluationError),
    {
        proof {
            reveal_strlit("./tbody/tr");
            lemma_plain_text_is_supported("./tbody/tr"@);
        }
        found_parts(select(self.0, "./tbody/tr"))
    }

    /// The header and data cells of a row, in document order: what the
    /// query `./td|./th` selects from the row node. A failure of the query,
    /// which a text that does not compile to an expression is, comes back
    /// inside [`Error::XPathEvaluationError`]; a result that is no set of
    /// nodes gives [`Error::InvalidDocument`].
    fn td_nodes(&self, tr: Node<'a>) -> (res: Result<Vec<Node<'a>>, Error>)
        ensures
            res matches Err(e) ==> e is InvalidDocument || e is XPathEvaluationError,
            compiles("./td|./th"@) != Some(true) ==> (res matches Err(e)
                && e is XPathEvaluationError),
    {
        proof {
            reveal_strlit("./td|./th");
            lemma_plain_text_is_supported("./td|./th"@);
        }
        found_parts(select(tr, "./td|./th"))
    }
}

/// The table nodes below `node`, in document order: what the query
/// `//table` selects from it. A failure of the query, which a text that does
/// not compile to an expression is, comes back inside
/// [`Error::XPathEvaluationError`]; a result that is no set of nodes gives
/// [`Error::TableNotFound`].
fn extract_table_nodes<'a>(node: impl Into<Node<'a>>) -> (res: Result<Vec<Node<'a>>, Error>)
    ensures
        res matches Err(e) ==> e is XPathEvaluationError || e is TableNotFound,
        compiles("//table"@) != Some(true) ==> (res matches Err(e) && e is XPathEvaluationError),
{
    proof {
        reveal_strlit("//table");
        lemma_plain_text_is_supported("//table"@);
    }
    found_tables(select(node, "//table"))
}

/// The descriptor of a cell, given its content and what was read of its
/// node: the row span, the column span and whether it is a header cell, or
/// nothing where the node is no element. A node that is no element cannot be
/// a cell: it gives [`Error::InvalidDocument`], and nothing else does.
pub fn cell_of<T>(content: T, parts: Option<(usize, usize, bool)>) -> (res: Result<Cell<T>, Error>)
    ensures
        parts is None <==> res is Err,
        res matches Err(e) ==> e is InvalidDocument,
        res matches Ok(cell) ==> parts == Some((cell.row_span, cell.col_span, cell.is_header))
            && cell.content == content,
{
    match parts {
        Some((row_span, col_span, is_header)) => Ok(Cell { is_header, row_span, col_span, content }),
        None => Err(Error::InvalidDocument),
    }
}

/// What is read of a cell node: its spans and its kind, where it is an
/// element, and nothing where it is not.
fn cell_parts<'a>(td: Node<'a>) -> (parts: Option<(usize, usize, bool)>)
    ensures
        parts matches Some(read) ==> read.0 >= 1 && read.1 >= 1,
{
    match node_element(td) {
        None => None,
        Some(element) => {
            let (row_span, col_span) = extract_rowspan_and_colspan(element);
            let (namespace, local) = element_name(element);
            Some((row_span, col_span, is_header_name(namespace, local)))
        },
    }
}

/// The descriptor of a cell node: its spans, its kind and the node itself as
/// content. A node that is no element gives [`Error::InvalidDocument`].
fn node_to_cell<'a>(td: Node<'a>) -> (res: Result<Cell<Node<'a>>, Error>)
    ensures
        res matches Ok(cell) ==> cell.row_span >= 1 && cell.col_span >= 1 && cell.content == td,
        res matches Err(e) ==> e is InvalidDocument,
{
    cell_of(td, cell_parts(td))
}

/// Resolves one table node into a grid of its cell nodes.
///
/// Its rows and their cells are read in document order, each cell becomes a
/// descriptor, and the rows are resolved. A failure of a query is handed on
/// inside [`Error::XPathEvaluationError`]; a query result that is no set of
/// nodes, a cell node that is no element, and a table too large to address
/// give [`Error::InvalidDocument`]. In no case is a part of a grid returned.
fn node_to_table<'a>(node: impl Into<Node<'a>>) -> (res: Result<Table<Node<'a>>, Error>)
    ensures
        match res {
            Ok(table) => is_resolved(table),
            Err(e) => e is InvalidDocument || e is XPathEvaluationError,
        },
{
    let t = TableSupport(node.into());
    let tr_nodes = match t.tr_nodes() {
        Ok(nodes) => nodes,
        Err(e) => {
            return Err(e);
        },
    };
    let mut rows: Vec<Vec<Cell<Node<'a>>>> = Vec::new();
    let mut i: usize = 0;
    while i < tr_nodes.len()
        invariant
            i <= tr_nodes@.len(),
            spans_positive(rows_view(rows@)),
        decreases tr_nodes@.len() - i,
    {
        let td_nodes = match t.td_nodes(tr_nodes[i]) {
            Ok(nodes) => nodes,
            Err(e) => {
                return Err(e);
            },
        };
        let mut row: Vec<Cell<Node<'a>>> = Vec::new();
        let mut j: usize = 0;
        while j < td_nodes.len()
            invariant
                j <= td_nodes@.len(),
                forall|k: int| 0 <= k < row@.len() ==> 0 < (#[trigger] row@[k]).row_span && 0 < row@[k].col_span,
            decreases td_nodes@.len() - j,
        {
            match node_to_cell(td_nodes[j]) {
                Ok(cell) => {
                    row.push(cell);
                },
                Err(e) => {
                    return Err(e);
                },
            }
            j += 1;
        }
        let ghost before = rows_view(rows@);
        rows.push(row);
        proof {
            let after = rows_view(rows@);
            assert forall|a: int, b: int| 0 <= a < after.len() && 0 <= b < after[a].len() implies 0
                < (#[trigger] after[a][b]).row_span && 0 < after[a][b].col_span by {
                if a < before.len() {
                    assert(after[a] == before[a]);
                    assert(0 < before[a][b].row_span);
                } else {
                    assert(after[a] == row@);
                }
            }
        }
        i += 1;
    }
    resolve(&rows)
}

/// Resolves each of the given table nodes, in order: one grid for each
/// node. The first table that fails to resolve fails the whole call with its
/// error, [`Error::InvalidDocument`] or [`Error::XPathEvaluationError`], and
/// the grids before it are dropped. No nodes give no grids and no error.
pub fn tables_of_nodes<'a>(table_nodes: &Vec<Node<'a>>) -> (res: Result<
    Vec<Table<Node<'a>>>,
    Error,
>)
    ensures
        match res {
            Ok(tables) => {
                &&& tables@.len() == table_nodes@.len()
                &&& forall|n: int| 0 <= n < tables@.len() ==> is_resolved(#[trigger] tables@[n])
            },
            Err(e) => (e is InvalidDocument || e is XPathEvaluationError) && table_nodes@.len() > 0,
        },
{
    let mut tables: Vec<Table<Node<'a>>> = Vec::new();
    let mut n: usize = 0;
    while n < table_nodes.len()
        invariant
            n <= table_nodes@.len(),
            tables@.len() == n,
            forall|k: int| 0 <= k < tables@.len() ==> is_resolved(#[trigger] tables@[k]),
        decreases table_nodes@.len() - n,
    {
        match node_to_table(table_nodes[n]) {
            Ok(table) => {
                tables.push(table);
            },
            Err(e) => {
                return Err(e);
            },
        }
        n += 1;
    }
    Ok(tables)
}

/// Extracts every table below `node`: one grid of cell nodes for each table
/// node that the query `//table` selects, in document order. A document
/// without tables gives no grids and no error.
///
/// If a query fails, as it does where its text does not compile to an
/// expression, its error is handed on inside
/// [`Error::XPathEvaluationError`]. If any table fails to resolve, the whole
/// extraction fails with that table's error and the grids of the tables
/// before it are dropped.
pub fn extract_table_nodes_to_table<'a>(node: impl Into<Node<'a>>) -> (res: Result<
    Vec<Table<Node<'a>>>,
    Error,
>)
    ensures
        match res {
            Ok(tables) => forall|n: int| 0 <= n < tables@.len() ==> is_resolved(#[trigger] tables@[n]),
            Err(e) => e is XPathEvaluationError || e is TableNotFound || e is InvalidDocument,
        },
        compiles("//table"@) != Some(true) ==> (res matches Err(e) && e is XPathEvaluationError),
{
    match extract_table_nodes(node) {
        Ok(table_nodes) => tables_of_nodes(&table_nodes),
        Err(e) => Err(e),
    }
}

} // verus!
