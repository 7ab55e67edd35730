//! The error body of PengAgent Protocol v1. It names a code and a message
//! and never carries stack traces, host names or internal paths.

pub mod codes;

use vstd::prelude::*;

verus! {

/// A JSON value, opaque here: the error body only carries it.
#[verifier::external_type_specification]
#[verifier::external_body]
pub struct ExJsonValue(serde_json::Value);

/// The version of the error schema.
pub const SCHEMA_VERSION: u32 = 1;

/// An error answer of the protocol.
pub struct ErrorResponse {
    /// Always `SCHEMA_VERSION`.
    pub schema_version: u32,
    /// What went wrong.
    pub error: ErrorDetail,
}

/// The code and message of an error answer.
pub struct ErrorDetail {
    /// One of the protocol's error codes (see `codes`).
    pub code: String,
    /// A message for people, free of sensitive details.
    pub message: String,
    /// Optional further data; left out of the JSON when `None`.
    pub details: Option<serde_json::Value>,
}

/// `status` is an HTTP status code: three decimal digits.
pub open spec fn is_status_code(status: u16) -> bool {
    100 <= status <= 999
}

/// `res` is the protocol's error answer with the given status, code and
/// message, and no details.
pub open spec fn is_error_answer(res: (u16, ErrorResponse), status: u16, code: Seq<char>, message: Seq<char>) -> bool {
    &&& res.0 == status
    &&& res.1.schema_version == SCHEMA_VERSION
    &&& res.1.error.code@ == code
    &&& res.1.error.message@ == message
    &&& res.1.error.details is None
}

/// An error answer carries the status it was given, schema version 1, the
/// code and message verbatim, and no details.
pub proof fn lemma_error_answer_fields(res: (u16, ErrorResponse), status: u16, code: Seq<char>, message: Seq<char>)
    requires
        is_error_answer(res, status, code, message),
    ensures
        res.0 == status,
        res.1.schema_version == 1,
        res.1.error.code@ == code,
        res.1.error.message@ == message,
        res.1.error.details is None,
{
}

/// The protocol's standard error answer: the status, and a body of schema
/// version 1 with the code and message and no details.
pub fn error_response(status: u16, code: &str, message: &str) -> (res: (u16, ErrorResponse))
    requires
        is_status_code(status),
    ensures
        is_error_answer(res, status, code@, message@),
{
    (
        status,
        ErrorResponse {
            schema_version: SCHEMA_VERSION,
            error: ErrorDetail { code: code.to_owned(), message: message.to_owned(), details: None },
        },
    )
}

} // verus!
