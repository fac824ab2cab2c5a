//! Client and server messages of the core protocol.

use vstd::prelude::*;
use crate::tx::TxId;

verus! {

/// Client to server.
#[derive(Debug)]
pub enum Request {
    Query { request_id: TxId, sql: String },
    Subscribe { request_id: TxId, sql: String },
    Notify { request_id: TxId, sql: String },
}

#[derive(Debug)]
pub struct ErrorPayload {
    pub code: ErrorCode,
    pub message: String,
}

#[derive(Debug, Clone, Copy, PartialEq, Eq, Structural)]
pub enum ErrorCode {
    SyntaxError,
    SerializationFailure,
    Internal,
}

} // verus!
