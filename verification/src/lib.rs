//! Dense grids resolved from tables whose cells may span several rows and
//! columns, and their rendering as comma-separated text.

use vstd::prelude::*;

pub mod csv_text;
pub mod element_utils;
pub mod layout;
pub mod layout_laws;
pub mod node_utils;
pub mod outside;
pub mod query_text;
pub mod resolve;
pub mod shown;
pub mod table;

pub use crate::layout::Cell;
pub use crate::node_utils::extract_table_nodes_to_table;
pub use crate::resolve::resolve;
pub use crate::shown::Shown;
pub use crate::table::Table;

verus! {

/// What can go wrong while extracting or rendering a table.
#[derive(Debug)]
pub enum Error {
    /// The search for tables gave something else than a set of nodes. A
    /// document without tables is no error: it gives no grids.
    TableNotFound,
    /// A row or a cell does not have the shape of a table, or the table is
    /// larger than this machine can address.
    InvalidDocument,
    /// The rendered text could not be produced.
    FailedToConvertToCSV,
    /// The query engine failed; its own error is inside.
    XPathEvaluationError(crate::outside::XPathError),
}

} // verus!
