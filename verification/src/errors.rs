//! Error taxonomy of the token lifecycle, and the field-level error payload
//! returned to clients.
use vstd::prelude::*;

verus! {

/// The failure categories of the token lifecycle.
///
/// `Unauthorized` rejects a request before it reaches a handler;
/// `InvalidOrExpiredToken` ends a rotation whose presented token is not in
/// the unused set; `InvalidInput` rejects a blank refresh token;
/// `StorageError` surfaces a persistence failure; `HashingError` surfaces a
/// stored hash that is not a well-formed encoding (data corruption).
#[derive(Clone, Copy, Debug, PartialEq, Eq, Structural)]
pub enum AuthError {
    Unauthorized,
    InvalidOrExpiredToken,
    InvalidInput,
    StorageError,
    HashingError,
}

impl AuthError {
    /// A short description, for error payloads.
    pub fn describe(&self) -> (r: &'static str)
        ensures
            r@ == self.describe_spec(),
    {
        proof {
            reveal_strlit("Unauthorized");
            reveal_strlit("Invalid refresh token");
            reveal_strlit("Database error");
            reveal_strlit("Token processing error");
        }
        match self {
            AuthError::Unauthorized => "Unauthorized",
            AuthError::InvalidOrExpiredToken => "Invalid refresh token",
            AuthError::InvalidInput => "Invalid refresh token",
            AuthError::StorageError => "Database error",
            AuthError::HashingError => "Token processing error",
        }
    }

    pub open spec fn describe_spec(&self) -> Seq<char> {
        match self {
            AuthError::Unauthorized => "Unauthorized"@,
            AuthError::InvalidOrExpiredToken => "Invalid refresh token"@,
            AuthError::InvalidInput => "Invalid refresh token"@,
            AuthError::StorageError => "Database error"@,
            AuthError::HashingError => "Token processing error"@,
        }
    }
}

/// Why a token failed verification: it could not be read at all, its expiry
/// has passed, or its signature does not match the expected key.
#[derive(Clone, Copy, Debug, PartialEq, Eq, Structural)]
pub enum TokenError {
    Malformed,
    Expired,
    InvalidSignature,
}

/// One field of a client-facing error payload: the field's name and the
/// messages attached to it.
#[derive(Debug)]
pub struct ValidationDetail {
    pub field: String,
    pub messages: Vec<String>,
}

/// Client-facing error payload: a category plus field-level messages.
#[derive(Debug)]
pub struct ValidationError {
    pub error: String,
    pub details: Vec<ValidationDetail>,
}

/// A payload of one category, one field, and one message.
pub open spec fn payload_is(
    e: ValidationError,
    error: Seq<char>,
    field: Seq<char>,
    message: Seq<char>,
) -> bool {
    &&& e.error@ == error
    &&& e.details@.len() == 1
    &&& e.details@[0].field@ == field
    &&& e.details@[0].messages@.len() == 1
    &&& e.details@[0].messages@[0]@ == message
}

impl ValidationError {
    /// A payload with a single detail entry, as most failure paths build.
    pub fn single(error: &str, field: &str, message: &str) -> (r: ValidationError)
        ensures
            payload_is(r, error@, field@, message@),
    {
        let mut messages: Vec<String> = Vec::new();
        messages.push(message.to_owned());
        let mut details: Vec<ValidationDetail> = Vec::new();
        details.push(ValidationDetail { field: field.to_owned(), messages });
        ValidationError { error: error.to_owned(), details }
    }
}

} // verus!
