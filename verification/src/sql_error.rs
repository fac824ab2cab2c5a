//! Errors of the SQL layer.

use vstd::prelude::*;
use vstd::string::*;
use crate::error::{DbError, db_error_text_is};

verus! {

/// Errors raised while planning and executing SQL.
#[derive(Debug)]
pub enum SqlError {
    ParseError(String),
    PlannerError(String),
    ExecutionError(String),
    TypeError { expected: String, actual: String },
    ColumnNotFound(String),
    TableNotFound(String),
    ConstraintViolation(String),
    Internal(String),
    Storage(DbError),
}

/// The text an SQL error other than a storage error is displayed as.
pub open spec fn sql_error_text(e: SqlError) -> Seq<char> {
    match e {
        SqlError::ParseError(m) => "Parse error: "@ + m@,
        SqlError::PlannerError(m) => "Planner error: "@ + m@,
        SqlError::ExecutionError(m) => "Execution error: "@ + m@,
        SqlError::TypeError { expected, actual } => "Type error: expected "@ + expected@ + ", got "@ + actual@,
        SqlError::ColumnNotFound(m) => "Column not found: "@ + m@,
        SqlError::TableNotFound(m) => "Table not found: "@ + m@,
        SqlError::ConstraintViolation(m) => "Constraint violation: "@ + m@,
        SqlError::Internal(m) => "Internal error: "@ + m@,
        SqlError::Storage(_) => "Storage error: "@,
    }
}

/// `t` is the text of SQL error `e`; a storage error's is `Storage error: `
/// followed by the storage error's text.
pub open spec fn sql_error_text_is(e: SqlError, t: Seq<char>) -> bool {
    match e {
        SqlError::Storage(d) => exists|s: Seq<char>| t == "Storage error: "@ + s && db_error_text_is(d, s),
        _ => t == sql_error_text(e),
    }
}

impl SqlError {
    /// The human-readable text of the error.
    pub fn to_string(&self) -> (r: String)
        ensures
            sql_error_text_is(*self, r@),
    {
        proof {
            reveal_strlit("Parse error: ");
            reveal_strlit("Planner error: ");
            reveal_strlit("Execution error: ");
            reveal_strlit("Type error: expected ");
            reveal_strlit(", got ");
            reveal_strlit("Column not found: ");
            reveal_strlit("Table not found: ");
            reveal_strlit("Constraint violation: ");
            reveal_strlit("Internal error: ");
            reveal_strlit("Storage error: ");
        }
        match self {
            SqlError::ParseError(m) => String::from_str("Parse error: ").concat(m.as_str()),
            SqlError::PlannerError(m) => String::from_str("Planner error: ").concat(m.as_str()),
            SqlError::ExecutionError(m) => String::from_str("Execution error: ").concat(m.as_str()),
            SqlError::TypeError { expected, actual } => String::from_str("Type error: expected ").concat(
                expected.as_str(),
            ).concat(", got ").concat(actual.as_str()),
            SqlError::ColumnNotFound(m) => String::from_str("Column not found: ").concat(m.as_str()),
            SqlError::TableNotFound(m) => String::from_str("Table not found: ").concat(m.as_str()),
            SqlError::ConstraintViolation(m) => String::from_str("Constraint violation: ").concat(m.as_str()),
            SqlError::Internal(m) => String::from_str("Internal error: ").concat(m.as_str()),
            SqlError::Storage(d) => {
                let text = d.to_string();
                String::from_str("Storage error: ").concat(text.as_str())
            },
        }
    }
}

impl From<DbError> for SqlError {
    fn from(err: DbError) -> (r: SqlError) {
        SqlError::Storage(err)
    }
}

impl vstd::std_specs::convert::FromSpecImpl<DbError> for SqlError {
    open spec fn obeys_from_spec() -> bool {
        true
    }

    open spec fn from_spec(v: DbError) -> SqlError {
        SqlError::Storage(v)
    }
}

} // verus!
