//! Errors surfaced by the storage and query core.

use vstd::prelude::*;
use crate::value::ColumnType;

verus! {

#[derive(Debug, Clone)]
pub enum DbError {
    /// A named column does not exist on the table.
    UnknownColumn,
    /// The same column is named more than once in one insert; accepting
    /// it would break the strict ordering of a column file's row-ids.
    DuplicateColumn,
    /// The named table does not exist.
    UnknownTable,
    /// A value does not fit the declared type of its column.
    TypeMismatch { column: String, declared: ColumnType },
    /// A row holds a different number of values than columns were named.
    RowArity,
    /// A value is neither a number, a string nor null, or a number that
    /// fits no storable type.
    UnsupportedValue,
    /// Two query results of different variants cannot be merged.
    MergeVariantMismatch,
    /// An on-disk image does not satisfy the storage invariants.
    Corrupt,
}

impl DbError {
    /// A human-readable description, for the embedding process to report.
    pub fn message(&self) -> String {
        match self {
            DbError::UnknownColumn => String::from_str(
                "One or more columns do not exist on table",
            ),
            DbError::DuplicateColumn => String::from_str(
                "The same column is supplied more than once",
            ),
            DbError::UnknownTable => String::from_str("The table does not exist"),
            DbError::TypeMismatch { column, declared } => {
                let mut s = String::from_str("Column ");
                s.append(column.as_str());
                s.append(" has type ");
                let name = declared.name();
                s.append(name.as_str());
                s.append(" but the supplied value does not fit it");
                s
            },
            DbError::RowArity => String::from_str(
                "The values supplied do not match the number of columns",
            ),
            DbError::UnsupportedValue => String::from_str("Unsupported value type"),
            DbError::MergeVariantMismatch => String::from_str(
                "Merging rows of different type is not possible",
            ),
            DbError::Corrupt => String::from_str("Table data on disk is corrupt"),
        }
    }
}

} // verus!
