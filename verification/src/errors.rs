//! The errors a review operation answers with.
use vstd::prelude::*;
use vstd::string::*;

verus! {

/// Why a review operation was refused or failed.
#[derive(Debug)]
pub enum DispatchError {
    /// The request is malformed or not allowed in the current state.
    Invalid(String),
    /// A newer request for the same file superseded this one.
    Cancelled,
    /// Nothing matches the request.
    NotFound(String),
    /// More than one workspace matches the request.
    Ambiguous(String),
    /// The review service failed.
    Service(String),
    /// The state store failed.
    Persistence(String),
    /// A remote companion failed.
    Remote(String),
    /// An internal lock or worker failed.
    Internal,
}

impl DispatchError {
    /// This is the `Invalid` error with exactly this text.
    pub open spec fn is_invalid(self, text: Seq<char>) -> bool {
        self matches DispatchError::Invalid(message) && message@ == text
    }

    /// This is the `NotFound` error with exactly this text.
    pub open spec fn is_not_found(self, text: Seq<char>) -> bool {
        self matches DispatchError::NotFound(message) && message@ == text
    }

    /// This is the `Ambiguous` error with exactly this text.
    pub open spec fn is_ambiguous(self, text: Seq<char>) -> bool {
        self matches DispatchError::Ambiguous(message) && message@ == text
    }

    /// This is the `Remote` error with exactly this text.
    pub open spec fn is_remote(self, text: Seq<char>) -> bool {
        self matches DispatchError::Remote(message) && message@ == text
    }
}

/// How an error reads.
pub open spec fn error_chars(error: DispatchError) -> Seq<char> {
    match error {
        DispatchError::Invalid(text) => "invalid request: "@ + text@,
        DispatchError::Cancelled => "presentation request was superseded by a newer viewport"@,
        DispatchError::NotFound(text) => "workspace not found: "@ + text@,
        DispatchError::Ambiguous(text) => "workspace name is ambiguous: "@ + text@,
        DispatchError::Service(text) => "durable review operation failed: "@ + text@,
        DispatchError::Persistence(text) => "durable state operation failed: "@ + text@,
        DispatchError::Remote(text) => "remote review operation failed: "@ + text@,
        DispatchError::Internal => "internal state error"@,
    }
}

fn prefixed(prefix: &str, text: &String) -> (message: String)
    ensures
        message@ == prefix@ + text@,
{
    let mut message = prefix.to_owned();
    message.append(text.as_str());
    message
}

/// Renders an error.
pub fn display_error(error: &DispatchError) -> (message: String)
    ensures
        message@ == error_chars(*error),
{
    match error {
        DispatchError::Invalid(text) => prefixed("invalid request: ", text),
        DispatchError::Cancelled =>
            "presentation request was superseded by a newer viewport".to_owned(),
        DispatchError::NotFound(text) => prefixed("workspace not found: ", text),
        DispatchError::Ambiguous(text) => prefixed("workspace name is ambiguous: ", text),
        DispatchError::Service(text) => prefixed("durable review operation failed: ", text),
        DispatchError::Persistence(text) => prefixed("durable state operation failed: ", text),
        DispatchError::Remote(text) => prefixed("remote review operation failed: ", text),
        DispatchError::Internal => "internal state error".to_owned(),
    }
}

/// Builds the `Invalid` error with this text.
pub fn invalid(text: &str) -> (error: DispatchError)
    ensures
        error.is_invalid(text@),
{
    DispatchError::Invalid(text.to_owned())
}

/// Builds the `NotFound` error with this text.
pub fn not_found(text: &str) -> (error: DispatchError)
    ensures
        error.is_not_found(text@),
{
    DispatchError::NotFound(text.to_owned())
}

/// Builds the `Remote` error with this text.
pub fn remote_failure(text: &str) -> (error: DispatchError)
    ensures
        error.is_remote(text@),
{
    DispatchError::Remote(text.to_owned())
}

} // verus!
