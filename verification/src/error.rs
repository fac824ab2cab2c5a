//! Storage-level errors shared by every layer.

use vstd::prelude::*;
use vstd::string::*;

verus! {

/// `std::io::Error` travels inside `DbError::Io` unchanged.
#[verifier::external_type_specification]
#[verifier::external_body]
pub struct ExIoError(std::io::Error);

/// Errors raised by the storage engine and the transaction manager.
#[derive(Debug)]
pub enum DbError {
    SyntaxError(String),
    SerializationFailure(String),
    Internal(String),
    Corruption(String),
    NotFound(String),
    InvalidTransaction(String),
    Io(std::io::Error),
}

/// Result type of the storage layer.
pub type Result<T> = core::result::Result<T, DbError>;

/// Calls `Display` of `std::io::Error`. Nothing is stated of the text: for
/// an error of the operating system it is the system's message, which
/// depends on the machine.
#[verifier::external_body]
fn io_error_to_string(e: &std::io::Error) -> (r: String) {
    format!("{}", e)
}

/// The prefix that each kind of error is displayed with.
pub open spec fn db_error_prefix(e: DbError) -> Seq<char> {
    match e {
        DbError::SyntaxError(_) => "Syntax Error: "@,
        DbError::SerializationFailure(_) => "Serialization Failure: "@,
        DbError::Internal(_) => "Internal Error: "@,
        DbError::Corruption(_) => "Corruption: "@,
        DbError::NotFound(_) => "Not Found: "@,
        DbError::InvalidTransaction(_) => "Invalid Transaction: "@,
        DbError::Io(_) => "IO Error: "@,
    }
}

/// The detail text that follows the prefix; an I/O error's is the text the
/// I/O error displays, which is not stated here.
pub open spec fn db_error_detail(e: DbError) -> Seq<char> {
    match e {
        DbError::SyntaxError(m) => m@,
        DbError::SerializationFailure(m) => m@,
        DbError::Internal(m) => m@,
        DbError::Corruption(m) => m@,
        DbError::NotFound(m) => m@,
        DbError::InvalidTransaction(m) => m@,
        DbError::Io(_) => Seq::empty(),
    }
}

/// `t` is the text of error `e`: its prefix and its detail; for an I/O
/// error, the prefix and some text.
pub open spec fn db_error_text_is(e: DbError, t: Seq<char>) -> bool {
    match e {
        DbError::Io(_) => exists|s: Seq<char>| t == "IO Error: "@ + s,
        _ => t == db_error_prefix(e) + db_error_detail(e),
    }
}

impl DbError {
    /// The human-readable text of the error: its kind, a colon, and the detail.
    pub fn to_string(&self) -> (r: String)
        ensures
            db_error_text_is(*self, r@),
    {
        proof {
            reveal_strlit("Syntax Error: ");
            reveal_strlit("Serialization Failure: ");
            reveal_strlit("Internal Error: ");
            reveal_strlit("Corruption: ");
            reveal_strlit("Not Found: ");
            reveal_strlit("Invalid Transaction: ");
            reveal_strlit("IO Error: ");
        }
        match self {
            DbError::SyntaxError(msg) => String::from_str("Syntax Error: ").concat(msg.as_str()),
            DbError::SerializationFailure(msg) => String::from_str("Serialization Failure: ").concat(msg.as_str()),
            DbError::Internal(msg) => String::from_str("Internal Error: ").concat(msg.as_str()),
            DbError::Corruption(msg) => String::from_str("Corruption: ").concat(msg.as_str()),
            DbError::NotFound(msg) => String::from_str("Not Found: ").concat(msg.as_str()),
            DbError::InvalidTransaction(msg) => String::from_str("Invalid Transaction: ").concat(msg.as_str()),
            DbError::Io(err) => {
                let text = io_error_to_string(err);
                String::from_str("IO Error: ").concat(text.as_str())
            },
        }
    }
}

impl From<std::io::Error> for DbError {
    fn from(err: std::io::Error) -> (r: DbError) {
        DbError::Io(err)
    }
}

impl vstd::std_specs::convert::FromSpecImpl<std::io::Error> for DbError {
    open spec fn obeys_from_spec() -> bool {
        true
    }

    open spec fn from_spec(v: std::io::Error) -> DbError {
        DbError::Io(v)
    }
}

} // verus!
