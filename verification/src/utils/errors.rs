//! What can go wrong while batches are turned into output.

use vstd::prelude::*;

verus! {

/// A failure that ends a conversion. Nothing is retried.
#[derive(Debug, Clone)]
pub enum SsimError {
    /// A table lacks a column that an operation names.
    MissingColumn(String),
    /// Tables that should be stacked do not have the same columns.
    ColumnMismatch,
    /// Rows wait to be written per carrier, but no carrier is known.
    MissingCarrier,
    /// A result was asked for before the end of input was announced.
    NotFinalized,
    /// A table could not be made into a data frame.
    Frame(String),
    /// A failure outside the library, such as one of reading or writing,
    /// reported by whoever consumes the batches.
    Output(String),
}

} // verus!
