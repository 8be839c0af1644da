//! The errors of validation, generation and schema export.
use vstd::prelude::*;

verus! {

/// `anyhow::Error`, what a column generator fails with; carried, never inspected.
#[verifier::external_type_specification]
#[verifier::external_body]
pub struct ExAnyhowError(anyhow::Error);

/// `serde_json::Error`, what JSON encoding fails with; carried, never inspected.
#[verifier::external_type_specification]
#[verifier::external_body]
pub struct ExJsonError(serde_json::Error);

/// A configuration that the export rules refuse.
#[derive(Debug, Clone, PartialEq, Eq)]
pub enum ExportFileError {
    /// The tables' shares do not add up to exactly one; the field holds their sum
    /// in units of `10^-MAX_SCALE`, saturated at `u128::MAX`.
    SumPercentSizeIncorrect { sum_percent_size: u128 },
    /// A table holds two columns of one name.
    DuplicateColumns { table: String, column: String },
    /// Two tables share one id.
    DuplicateTables { table: String },
    /// Too many files for the data size, or a table's share of a file cannot
    /// hold one row.
    TooManyFiles { files: u64 },
    /// There are no tables to check.
    ReduceFailed,
}

/// What a generation or export can fail with.
#[derive(Debug)]
pub enum ExportError {
    /// The configuration is refused.
    Invalid(ExportFileError),
    /// A column generator failed.
    Generator(anyhow::Error),
    /// A table's byte share does not fit in a `u64`.
    Conversion,
    /// JSON encoding failed.
    Json(serde_json::Error),
}

} // verus!
