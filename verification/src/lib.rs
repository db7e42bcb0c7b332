//! Plain, monospaced, column-aligned text tables.
//!
//! A [`Table`] is built from a row template such as `"{:>}  {:<}"`, which is
//! compiled once into a sequence of literal and column-alignment tokens.
//! Rows of cells are added one by one; each cell is measured on insertion and
//! every column grows to the widest cell seen so far.  Rendering interleaves
//! the template's literals with the cells, padded to the column widths.

pub mod column_spec;
pub mod row;
pub mod table;
pub mod width_string;

pub use column_spec::Error;
pub use row::Row;
pub use table::Table;

