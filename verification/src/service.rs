//! The SQL query service's answers: the errors of each stage, and the rows
//! of a SELECT as column-value pairs.

use vstd::prelude::*;
use vstd::string::*;
use crate::sql_exec::{values_view, QueryResult};
use crate::sql_types::{names_view, Value, ValueView};
use crate::wire::{ErrorCode, ErrorResponse};

verus! {

/// An error answer without details.
pub open spec fn error_answer(r: ErrorResponse, code: ErrorCode, message: Seq<char>) -> bool {
    r.code == code && r.message@ == message && r.details is None
}

/// The answer to SQL text that does not parse.
pub fn parse_error_response(reason: &str) -> (r: ErrorResponse)
    ensures
        error_answer(r, ErrorCode::SyntaxError, "SQL parsing error: "@ + reason@),
{
    proof {
        reveal_strlit("SQL parsing error: ");
    }
    ErrorResponse {
        code: ErrorCode::SyntaxError,
        message: String::from_str("SQL parsing error: ").concat(reason),
        details: None,
    }
}

/// The answer to SQL text with no statement in it.
pub fn no_statement_response() -> (r: ErrorResponse)
    ensures
        error_answer(r, ErrorCode::SyntaxError, "No SQL statement provided"@),
{
    ErrorResponse { code: ErrorCode::SyntaxError, message: String::from_str("No SQL statement provided"), details: None }
}

/// The answer to a statement that cannot be planned.
pub fn planning_error_response(reason: &str) -> (r: ErrorResponse)
    ensures
        error_answer(r, ErrorCode::SyntaxError, "Query planning error: "@ + reason@),
{
    proof {
        reveal_strlit("Query planning error: ");
    }
    ErrorResponse {
        code: ErrorCode::SyntaxError,
        message: String::from_str("Query planning error: ").concat(reason),
        details: None,
    }
}

/// The answer to a plan whose execution fails.
pub fn execution_error_response(reason: &str) -> (r: ErrorResponse)
    ensures
        error_answer(r, ErrorCode::Internal, "Query execution error: "@ + reason@),
{
    proof {
        reveal_strlit("Query execution error: ");
    }
    ErrorResponse {
        code: ErrorCode::Internal,
        message: String::from_str("Query execution error: ").concat(reason),
        details: None,
    }
}

/// A row as pairs of a column name and a value, for the columns the row
/// has a value for (the first `min(columns, row)` ones).
pub open spec fn row_pairs(columns: Seq<Seq<char>>, row: Seq<ValueView>) -> Seq<(Seq<char>, ValueView)> {
    let n = if columns.len() <= row.len() { columns.len() } else { row.len() };
    Seq::new(n, |i: int| (columns[i], row[i]))
}

pub open spec fn pairs_view(p: Seq<(String, Value)>) -> Seq<(Seq<char>, ValueView)> {
    p.map_values(|e: (String, Value)| (e.0@, e.1@))
}

/// The rows of a SELECT result as column-value pairs; any other result is
/// refused, since only SELECT is served here.
pub fn select_rows(result: QueryResult) -> (r: Result<Vec<Vec<(String, Value)>>, ErrorResponse>)
    ensures
        match result {
            QueryResult::Select { columns, rows } => r matches Ok(out) && out@.len() == rows@.len() && forall|i: int|
                0 <= i < rows@.len() ==> pairs_view(#[trigger] out@[i]@) == row_pairs(names_view(columns@), values_view(rows@[i]@)),
            _ => r matches Err(e) && error_answer(e, ErrorCode::SyntaxError, "Only SELECT queries are supported via HTTP"@),
        },
{
    match result {
        QueryResult::Select { columns, rows } => {
            let mut out: Vec<Vec<(String, Value)>> = Vec::new();
            let mut i: usize = 0;
            while i < rows.len()
                invariant
                    0 <= i <= rows@.len(),
                    out@.len() == i,
                    forall|k: int| 0 <= k < i ==> pairs_view(#[trigger] out@[k]@) == row_pairs(names_view(columns@), values_view(rows@[k]@)),
                decreases rows@.len() - i,
            {
                let row = &rows[i];
                let n: usize = if columns.len() <= row.len() { columns.len() } else { row.len() };
                let mut pairs: Vec<(String, Value)> = Vec::new();
                let mut j: usize = 0;
                while j < n
                    invariant
                        0 <= j <= n,
                        n <= columns@.len(),
                        n <= row@.len(),
                        pairs_view(pairs@) == row_pairs(names_view(columns@), values_view(row@)).subrange(0, j as int),
                    decreases n - j,
                {
                    let ghost before = pairs@;
                    let c = String::from_str(columns[j].as_str());
                    let v = row[j].copy();
                    pairs.push((c, v));
                    proof {
                        let full = row_pairs(names_view(columns@), values_view(row@));
                        assert(pairs_view(pairs@) =~= pairs_view(before).push((c@, v@)));
                        assert(full[j as int] == (columns@[j as int]@, row@[j as int]@));
                        assert(full.subrange(0, j + 1) =~= full.subrange(0, j as int).push(full[j as int]));
                        assert(pairs_view(pairs@) =~= row_pairs(names_view(columns@), values_view(row@)).subrange(0, j + 1));
                    }
                    j = j + 1;
                }
                proof {
                    assert(row_pairs(names_view(columns@), values_view(row@)).subrange(0, n as int) =~= row_pairs(
                        names_view(columns@),
                        values_view(row@),
                    ));
                }
                out.push(pairs);
                i = i + 1;
            }
            Ok(out)
        },
        _ => Err(ErrorResponse {
            code: ErrorCode::SyntaxError,
            message: String::from_str("Only SELECT queries are supported via HTTP"),
            details: None,
        }),
    }
}

} // verus!
