//! The closed set of domain failure kinds and the single place that decides
//! which transport status and user-visible message each kind becomes.

use vstd::prelude::*;

verus! {

/// A domain failure. Store-layer detail is never exposed: a store failure
/// other than a uniqueness violation collapses to `StoreError`.
#[derive(Clone, Copy, PartialEq, Eq, Structural, Debug)]
pub enum AppError {
    /// No session token was presented, or the one presented did not verify.
    Unauthenticated,
    /// Login failed. Unknown name and wrong password deliberately collapse
    /// to this one kind so that callers cannot enumerate account names.
    WrongCredentials,
    /// The addressed record does not exist.
    NotFound,
    /// A uniqueness constraint was violated (the name is already taken).
    Conflict,
    /// Malformed input, such as a password confirmation that differs.
    ValidationFailed,
    /// The operation may not target the caller's own account.
    OperationConflict,
    /// Any other store-layer failure, detail suppressed.
    StoreError,
}

/// The transport status code each failure kind maps to.
pub open spec fn spec_status_of(e: AppError) -> u16 {
    match e {
        AppError::Unauthenticated => 401,
        AppError::WrongCredentials => 401,
        AppError::NotFound => 404,
        AppError::Conflict => 409,
        AppError::ValidationFailed => 400,
        AppError::OperationConflict => 409,
        AppError::StoreError => 400,
    }
}

/// The user-visible message each failure kind maps to.
pub open spec fn spec_message_of(e: AppError) -> Seq<char> {
    match e {
        AppError::Unauthenticated => "Login Error"@,
        AppError::WrongCredentials => "Username/password incorrect"@,
        AppError::NotFound => "Record not found"@,
        AppError::Conflict => "Record existed"@,
        AppError::ValidationFailed => "Passwords don't match"@,
        AppError::OperationConflict => "Operation not allowed on own account"@,
        AppError::StoreError => "Query Error"@,
    }
}

/// The status code rendered as its decimal digits.
pub open spec fn spec_code_of(e: AppError) -> Seq<char> {
    match e {
        AppError::Unauthenticated => "401"@,
        AppError::WrongCredentials => "401"@,
        AppError::NotFound => "404"@,
        AppError::Conflict => "409"@,
        AppError::ValidationFailed => "400"@,
        AppError::OperationConflict => "409"@,
        AppError::StoreError => "400"@,
    }
}

pub fn status_of(e: &AppError) -> (r: u16)
    ensures
        r == spec_status_of(*e),
{
    match e {
        AppError::Unauthenticated => 401,
        AppError::WrongCredentials => 401,
        AppError::NotFound => 404,
        AppError::Conflict => 409,
        AppError::ValidationFailed => 400,
        AppError::OperationConflict => 409,
        AppError::StoreError => 400,
    }
}

pub fn message_of(e: &AppError) -> (r: &'static str)
    ensures
        r@ == spec_message_of(*e),
{
    match e {
        AppError::Unauthenticated => "Login Error",
        AppError::WrongCredentials => "Username/password incorrect",
        AppError::NotFound => "Record not found",
        AppError::Conflict => "Record existed",
        AppError::ValidationFailed => "Passwords don't match",
        AppError::OperationConflict => "Operation not allowed on own account",
        AppError::StoreError => "Query Error",
    }
}

/// The uniform response envelope: every endpoint, success or failure,
/// answers with these three fields.
pub struct ResponseEnvelope {
    pub code: String,
    pub message: String,
    pub data: String,
}

/// Translates a failure kind to the envelope sent over the wire: the status
/// code as a digit string, the fixed message, and an empty data field.
pub fn error_response(e: &AppError) -> (r: ResponseEnvelope)
    ensures
        r.code@ == spec_code_of(*e),
        r.message@ == spec_message_of(*e),
        r.data@ == Seq::<char>::empty(),
{
    let code = match e {
        AppError::Unauthenticated => "401",
        AppError::WrongCredentials => "401",
        AppError::NotFound => "404",
        AppError::Conflict => "409",
        AppError::ValidationFailed => "400",
        AppError::OperationConflict => "409",
        AppError::StoreError => "400",
    };
    ResponseEnvelope {
        code: code.to_owned(),
        message: message_of(e).to_owned(),
        data: String::new(),
    }
}

} // verus!
