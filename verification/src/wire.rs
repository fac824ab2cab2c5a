//! The wire protocol spoken over HTTP and WebSocket (version 1): the
//! message types and the messages that carry no JSON payload.

use vstd::prelude::*;
use vstd::string::*;
use crate::text::{decimal_digits, decimal_string};

verus! {

pub const PROTOCOL_VERSION: u32 = 1;

#[derive(Debug, Clone, Copy, PartialEq, Eq, Structural)]
pub enum MessageType {
    Query,
    Mutation,
    Subscribe,
    Unsubscribe,
    Update,
    Error,
    Ack,
    Hello,
    Welcome,
}

#[derive(Debug, Clone, Copy, PartialEq, Eq, Structural)]
pub struct TransactionIdentity {
    pub tx_id: u64,
    pub timestamp: u64,
}

#[derive(Debug, Clone, Copy, PartialEq, Eq, Structural)]
pub struct MutationResponse {
    pub tx_id: u64,
    pub affected_rows: u64,
}

#[derive(Debug, Clone)]
pub struct SubscribeResponse {
    pub subscription_id: String,
}

#[derive(Debug, Clone)]
pub struct UnsubscribeRequest {
    pub subscription_id: String,
}

#[derive(Debug, Clone, Copy, PartialEq, Eq, Structural)]
pub struct HelloMessage {
    pub last_seen_tx: Option<u64>,
}

#[derive(Debug, Clone, Copy, PartialEq, Eq, Structural)]
pub struct WelcomeMessage {
    pub current_tx: u64,
}

#[derive(Debug, Clone, Copy, PartialEq, Eq, Structural)]
pub enum ErrorCode {
    SerializationFailure,
    SyntaxError,
    Internal,
    NotFound,
    Unauthorized,
    RateLimited,
}

/// The name an error code is written as.
pub open spec fn error_code_name(c: ErrorCode) -> Seq<char> {
    match c {
        ErrorCode::SerializationFailure => "SERIALIZATION_FAILURE"@,
        ErrorCode::SyntaxError => "SYNTAX_ERROR"@,
        ErrorCode::Internal => "INTERNAL"@,
        ErrorCode::NotFound => "NOT_FOUND"@,
        ErrorCode::Unauthorized => "UNAUTHORIZED"@,
        ErrorCode::RateLimited => "RATE_LIMITED"@,
    }
}

impl ErrorCode {
    /// The name the code is written as, in upper snake case.
    pub fn to_string(&self) -> (r: String)
        ensures
            r@ == error_code_name(*self),
    {
        proof {
            reveal_strlit("SERIALIZATION_FAILURE");
            reveal_strlit("SYNTAX_ERROR");
            reveal_strlit("INTERNAL");
            reveal_strlit("NOT_FOUND");
            reveal_strlit("UNAUTHORIZED");
            reveal_strlit("RATE_LIMITED");
        }
        match self {
            ErrorCode::SerializationFailure => String::from_str("SERIALIZATION_FAILURE"),
            ErrorCode::SyntaxError => String::from_str("SYNTAX_ERROR"),
            ErrorCode::Internal => String::from_str("INTERNAL"),
            ErrorCode::NotFound => String::from_str("NOT_FOUND"),
            ErrorCode::Unauthorized => String::from_str("UNAUTHORIZED"),
            ErrorCode::RateLimited => String::from_str("RATE_LIMITED"),
        }
    }
}

/// An error answer; the details, where there are any, are JSON text.
#[derive(Debug, Clone)]
pub struct ErrorResponse {
    pub code: ErrorCode,
    pub message: String,
    pub details: Option<String>,
}

impl ErrorResponse {
    /// `CODE: message`, followed by ` - Details: ` and the details where
    /// there are details.
    pub fn to_string(&self) -> (r: String)
        ensures
            self.details matches None ==> r@ == error_code_name(self.code) + ": "@ + self.message@,
            self.details matches Some(d) ==> r@ == error_code_name(self.code) + ": "@ + self.message@ + " - Details: "@ + d@,
    {
        proof {
            reveal_strlit(": ");
            reveal_strlit(" - Details: ");
        }
        let head = self.code.to_string().concat(": ").concat(self.message.as_str());
        match &self.details {
            Some(details) => head.concat(" - Details: ").concat(details.as_str()),
            None => head,
        }
    }
}

/// The name a message type is debug-printed as.
pub open spec fn message_type_name(t: MessageType) -> Seq<char> {
    match t {
        MessageType::Query => "Query"@,
        MessageType::Mutation => "Mutation"@,
        MessageType::Subscribe => "Subscribe"@,
        MessageType::Unsubscribe => "Unsubscribe"@,
        MessageType::Update => "Update"@,
        MessageType::Error => "Error"@,
        MessageType::Ack => "Ack"@,
        MessageType::Hello => "Hello"@,
        MessageType::Welcome => "Welcome"@,
    }
}

impl MessageType {
    /// The variant's name.
    pub fn name(&self) -> (r: String)
        ensures
            r@ == message_type_name(*self),
    {
        proof {
            reveal_strlit("Query");
            reveal_strlit("Mutation");
            reveal_strlit("Subscribe");
            reveal_strlit("Unsubscribe");
            reveal_strlit("Update");
            reveal_strlit("Error");
            reveal_strlit("Ack");
            reveal_strlit("Hello");
            reveal_strlit("Welcome");
        }
        match self {
            MessageType::Query => String::from_str("Query"),
            MessageType::Mutation => String::from_str("Mutation"),
            MessageType::Subscribe => String::from_str("Subscribe"),
            MessageType::Unsubscribe => String::from_str("Unsubscribe"),
            MessageType::Update => String::from_str("Update"),
            MessageType::Error => String::from_str("Error"),
            MessageType::Ack => String::from_str("Ack"),
            MessageType::Hello => String::from_str("Hello"),
            MessageType::Welcome => String::from_str("Welcome"),
        }
    }
}

/// What a WebSocket connection does with an incoming message.
#[derive(Debug, Clone)]
pub enum Route {
    Hello,
    Subscribe,
    Unsubscribe,
    /// Answer with this error and go on.
    Reject(ErrorResponse),
}

/// The route of a message with this protocol version and type: a version
/// other than ours is rejected as internal, with the version we support in
/// the details; of the rest only HELLO, SUBSCRIBE and UNSUBSCRIBE are
/// handled, any other type is rejected as a syntax error.
pub open spec fn route_spec(version: u32, t: MessageType, r: Route) -> bool {
    if version != PROTOCOL_VERSION {
        match r {
            Route::Reject(e) => {
                &&& e.code == ErrorCode::Internal
                &&& e.message@ == "Unsupported protocol version: "@ + decimal_digits(version as nat)
                &&& match e.details {
                    Some(d) => d@ == "{\"supported_version\":1}"@,
                    None => false,
                }
            },
            _ => false,
        }
    } else {
        match t {
            MessageType::Hello => r is Hello,
            MessageType::Subscribe => r is Subscribe,
            MessageType::Unsubscribe => r is Unsubscribe,
            _ => match r {
                Route::Reject(e) => e.code == ErrorCode::SyntaxError && e.message@ == "Unsupported message type: "@
                    + message_type_name(t) && e.details is None,
                _ => false,
            },
        }
    }
}

pub fn route_message(version: u32, message_type: MessageType) -> (r: Route)
    ensures
        route_spec(version, message_type, r),
{
    proof {
        reveal_strlit("Unsupported protocol version: ");
        reveal_strlit("{\"supported_version\":1}");
        reveal_strlit("Unsupported message type: ");
    }
    if version != PROTOCOL_VERSION {
        let message = String::from_str("Unsupported protocol version: ").concat(decimal_string(version as u64).as_str());
        return Route::Reject(ErrorResponse {
            code: ErrorCode::Internal,
            message,
            details: Some(String::from_str("{\"supported_version\":1}")),
        });
    }
    match message_type {
        MessageType::Hello => Route::Hello,
        MessageType::Subscribe => Route::Subscribe,
        MessageType::Unsubscribe => Route::Unsubscribe,
        _ => {
            let message = String::from_str("Unsupported message type: ").concat(message_type.name().as_str());
            Route::Reject(ErrorResponse { code: ErrorCode::SyntaxError, message, details: None })
        },
    }
}

/// Whether a client that said HELLO has missed transactions to be replayed:
/// it has seen some, and fewer than there are.
pub fn needs_replay(last_seen_tx: Option<u64>, current_tx: u64) -> (r: bool)
    ensures
        r == (last_seen_tx matches Some(t) && t < current_tx),
{
    match last_seen_tx {
        Some(t) => t < current_tx,
        None => false,
    }
}

} // verus!
