//! A row/column slicing engine for delimited text.
//!
//! A selection expression is a comma-separated list of clauses in a
//! list-slicing syntax (`start:end:step`), where each bound is either a
//! 1-based position (negative values count from the end) or a
//! case-insensitive substring pattern.  The engine parses such expressions,
//! resolves the symbolic bounds against the length of the sequence being
//! scanned, and walks the sequence once per clause deciding membership.

pub mod driver;
pub mod format;
pub mod laws;
pub mod matcher;
pub mod pattern;
pub mod selector;
pub mod text;

use vstd::prelude::*;

verus! {

/// The plain settings a caller hands to the engine: two selection
/// expressions (rows, columns), two delimiters, and the text to slice.
pub struct Args {
    /// Rows to select from input.
    pub rows: String,
    /// Row delimiter.
    pub row_delimiter: String,
    /// Columns to select from input.
    pub columns: String,
    /// Column delimiter.
    pub column_delimiter: String,
    /// Text to parse.
    pub input: String,
}

} // verus!
