//! Column-oriented reading of CSV text.
//!
//! `parse::parse` takes the bytes of a CSV document. The first record is the
//! header and names the columns; every later record is a row. Each cell is
//! read as a 64-bit integer with a sign, and where its text is no such
//! integer the cell counts as missing. The result is a `table::Table`: for
//! each column its entries, one for each cell, in the order of the rows.
//!
//! Choices that the table makes, and that callers can rely on:
//!
//! - The columns come in the order of their names, which is the order of
//!   `str`.
//! - Columns whose names are the same are one column. It gets an entry from
//!   each of their cells, row by row and from left to right within a row.
//! - A row that is longer than the header loses its extra cells. A row that
//!   is shorter gives no entry to the columns that it does not reach, which
//!   are then shorter than the others.
//! - A cell that is no integer never makes the reading fail. Only the
//!   structure of the input can: see `error::StructuralError`.
//!
//! The records are split into fields by the csv crate, in `reader`; all else
//! is this library's own and proved.

pub mod columns;
pub mod error;
pub mod number;
pub mod order;
pub mod parse;
pub mod quoting;
pub mod reader;
pub mod render;
pub mod table;
