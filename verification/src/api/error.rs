//! The ways in which an operation of the client fails.

use crate::text::{decimal, decimal_text, joined};
use vstd::prelude::*;

verus! {

/// A failure of the client.
#[derive(Debug, Clone, PartialEq, Eq)]
pub enum ApiError {
    /// No candidate endpoint could be reached; the text is the last transport
    /// error.
    Connectivity(String),
    /// No candidate yielded a usable token; the text is what the last one
    /// failed with.
    Auth(String),
    /// The request did not complete; the text is the transport's message.
    Transport(String),
    /// The server was reached and answered with this status, which is not a
    /// success code.
    Server(u16),
    /// The body of the response is of no use: it is not JSON, and the text is
    /// the parser's message, or it is JSON of another shape than the one
    /// asked for, and the text says so.
    Decode(String),
    /// The server reported success and named no conversation.
    Creation,
}

/// The value of an `ApiError`.
pub enum ApiFailure {
    Connectivity(Seq<char>),
    Auth(Seq<char>),
    Transport(Seq<char>),
    Server(u16),
    Decode(Seq<char>),
    Creation,
}

impl View for ApiError {
    type V = ApiFailure;

    open spec fn view(&self) -> ApiFailure {
        match self {
            ApiError::Connectivity(m) => ApiFailure::Connectivity(m@),
            ApiError::Auth(m) => ApiFailure::Auth(m@),
            ApiError::Transport(m) => ApiFailure::Transport(m@),
            ApiError::Server(status) => ApiFailure::Server(*status),
            ApiError::Decode(m) => ApiFailure::Decode(m@),
            ApiError::Creation => ApiFailure::Creation,
        }
    }
}

/// Whether `status` is a status code of HTTP: three digits.
pub open spec fn well_formed_status(status: u16) -> bool {
    100 <= status < 1000
}

/// The reason phrase that `http::StatusCode::canonical_reason` gives for a
/// status code of three digits, where it knows one.
pub uninterp spec fn canonical_reason(status: u16) -> Option<Seq<char>>;

/// The line for a status as `http::StatusCode` prints it: the number, a
/// space, and the reason phrase, or `<unknown status code>` where there is
/// none.
pub open spec fn status_line(status: u16, reason: Option<Seq<char>>) -> Seq<char> {
    decimal(status as nat) + " "@ + match reason {
        Some(phrase) => phrase,
        None => "<unknown status code>"@,
    }
}

/// The message for a status that is not a success code: `HTTP`, and behind
/// it the status line for a status code of three digits, the bare number for
/// any other.
pub open spec fn status_message(status: u16) -> Seq<char> {
    if well_formed_status(status) {
        "HTTP "@ + status_line(status, canonical_reason(status))
    } else {
        "HTTP "@ + decimal(status as nat)
    }
}

/// Trusted: `StatusCode::canonical_reason` of the `http` crate, reached as
/// `reqwest::StatusCode`, on the code that `StatusCode::from_u16` makes of
/// `status`, which it does for every number of three digits. The phrase is a
/// function of the number alone, and the contract says no more than that.
#[verifier::external_body]
fn reason_phrase(status: u16) -> (r: Option<&'static str>)
    requires
        well_formed_status(status),
    ensures
        match r {
            Some(phrase) => canonical_reason(status) == Some(phrase@),
            None => canonical_reason(status) is None,
        },
{
    match reqwest::StatusCode::from_u16(status) {
        Ok(code) => code.canonical_reason(),
        Err(_) => None,
    }
}

/// The line for a status with the reason phrase given.
pub fn status_line_text(status: u16, reason: Option<&str>) -> (r: String)
    ensures
        r@ == status_line(
            status,
            match reason {
                Some(phrase) => Some(phrase@),
                None => None,
            },
        ),
{
    let digits = decimal_text(status);
    let spaced = joined(digits.as_str(), " ");
    match reason {
        Some(phrase) => joined(spaced.as_str(), phrase),
        None => joined(spaced.as_str(), "<unknown status code>"),
    }
}

/// The message for a status that is not a success code.
pub fn status_text(status: u16) -> (r: String)
    ensures
        r@ == status_message(status),
{
    if 100 <= status && status < 1000 {
        let line = status_line_text(status, reason_phrase(status));
        joined("HTTP ", line.as_str())
    } else {
        let digits = decimal_text(status);
        joined("HTTP ", digits.as_str())
    }
}

impl ApiFailure {
    /// The message that a caller shows for this failure.
    pub open spec fn message(self) -> Seq<char> {
        match self {
            ApiFailure::Connectivity(m) => m,
            ApiFailure::Auth(m) => m,
            ApiFailure::Transport(m) => m,
            ApiFailure::Server(status) => status_message(status),
            ApiFailure::Decode(m) => m,
            ApiFailure::Creation => "No chat GUID in response"@,
        }
    }
}

impl ApiError {
    /// The message that a caller shows for this failure.
    pub fn message(&self) -> (r: String)
        ensures
            r@ == self@.message(),
    {
        match self {
            ApiError::Connectivity(m) => m.clone(),
            ApiError::Auth(m) => m.clone(),
            ApiError::Transport(m) => m.clone(),
            ApiError::Server(status) => status_text(*status),
            ApiError::Decode(m) => m.clone(),
            ApiError::Creation => "No chat GUID in response".to_owned(),
        }
    }
}

} // verus!
