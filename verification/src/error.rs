//! Broker errors and their Problem Details form.
use vstd::prelude::*;
use crate::text::{has_infix, str_contains, string_from};

verus! {

/// An error of the broker; each variant carries its message.
#[derive(Clone, Debug, PartialEq)]
pub enum BrokerError {
    BadRequest(String),
    NotFound(String),
    Conflict(String),
    NotImplemented(String),
    Internal(String),
}

/// RFC 7807 Problem Details payload.
#[derive(Clone, Debug, PartialEq)]
pub struct ProblemDetails {
    pub problem_type: Option<String>,
    pub title: Option<String>,
    pub status: u16,
    pub detail: String,
}

/// Problem Details title of each variant.
pub open spec fn error_title(e: BrokerError) -> Seq<char> {
    match e {
        BrokerError::BadRequest(_) => "InvalidRequest"@,
        BrokerError::NotFound(_) => "ResourceNotFound"@,
        BrokerError::Conflict(_) => "AlreadyExists"@,
        BrokerError::NotImplemented(_) => "NotImplemented"@,
        BrokerError::Internal(_) => "InternalError"@,
    }
}

/// HTTP status of each variant.
pub open spec fn error_status(e: BrokerError) -> u16 {
    match e {
        BrokerError::BadRequest(_) => 400,
        BrokerError::NotFound(_) => 404,
        BrokerError::Conflict(_) => 409,
        BrokerError::NotImplemented(_) => 501,
        BrokerError::Internal(_) => 500,
    }
}

/// Message carried by an error.
pub open spec fn error_message(e: BrokerError) -> Seq<char> {
    match e {
        BrokerError::BadRequest(m) => m@,
        BrokerError::NotFound(m) => m@,
        BrokerError::Conflict(m) => m@,
        BrokerError::NotImplemented(m) => m@,
        BrokerError::Internal(m) => m@,
    }
}

/// What the message of a refused parse is: exactly a text, or a text
/// followed by `": "` and the detail that an outside parser gave.
pub enum ParseFailure {
    Message(Seq<char>),
    Detailed(Seq<char>),
}

/// A text, `": "`, and a detail.
pub open spec fn with_detail(before: Seq<char>, detail: Seq<char>) -> Seq<char> {
    before + ": "@ + detail
}

/// A message is the one that a refused parse describes: the text itself,
/// or one that begins with the text and `": "`.
pub open spec fn failure_message(m: Seq<char>, f: ParseFailure) -> bool {
    match f {
        ParseFailure::Message(t) => m == t,
        ParseFailure::Detailed(before) => (before + ": "@).is_prefix_of(m),
    }
}

/// A message made of a text, `": "` and some detail is the message of a
/// failure detailed after that text.
pub proof fn lemma_detailed_failure(m: Seq<char>, before: Seq<char>, detail: Seq<char>)
    requires
        m == with_detail(before, detail),
    ensures
        failure_message(m, ParseFailure::Detailed(before)),
{
    assert((before + ": "@) =~= m.subrange(0, (before + ": "@).len() as int));
}

impl BrokerError {
    /// Builds internal error variant from a message.
    pub fn internal(message: &str) -> (r: Self)
        ensures
            r is Internal,
            error_message(r) == message@,
    {
        BrokerError::Internal(string_from(message))
    }

    /// A bad-request error with the given message.
    pub fn bad_request(message: &str) -> (r: Self)
        ensures
            r is BadRequest,
            error_message(r) == message@,
    {
        BrokerError::BadRequest(string_from(message))
    }

    /// Maps broker error variant to Problem Details title.
    pub fn title(&self) -> (r: &'static str)
        ensures
            r@ == error_title(*self),
    {
        let r = match self {
            BrokerError::BadRequest(_) => "InvalidRequest",
            BrokerError::NotFound(_) => "ResourceNotFound",
            BrokerError::Conflict(_) => "AlreadyExists",
            BrokerError::NotImplemented(_) => "NotImplemented",
            BrokerError::Internal(_) => "InternalError",
        };
        proof {
            reveal_strlit("InvalidRequest");
            reveal_strlit("ResourceNotFound");
            reveal_strlit("AlreadyExists");
            reveal_strlit("NotImplemented");
            reveal_strlit("InternalError");
        }
        r
    }

    /// Maps broker error variant to HTTP status code.
    pub fn status_code(&self) -> (r: u16)
        ensures
            r == error_status(*self),
    {
        match self {
            BrokerError::BadRequest(_) => 400,
            BrokerError::NotFound(_) => 404,
            BrokerError::Conflict(_) => 409,
            BrokerError::NotImplemented(_) => 501,
            BrokerError::Internal(_) => 500,
        }
    }

    /// The message of the error (its display text).
    pub fn message(&self) -> (r: String)
        ensures
            r@ == error_message(*self),
    {
        match self {
            BrokerError::BadRequest(m) => m.clone(),
            BrokerError::NotFound(m) => m.clone(),
            BrokerError::Conflict(m) => m.clone(),
            BrokerError::NotImplemented(m) => m.clone(),
            BrokerError::Internal(m) => m.clone(),
        }
    }

    /// The display text of the error: its message.
    pub fn to_string(&self) -> (r: String)
        ensures
            r@ == error_message(*self),
    {
        self.message()
    }

    /// Converts broker error into RFC 7807 Problem Details payload.
    pub fn details(&self) -> (r: ProblemDetails)
        ensures
            r.problem_type matches Some(t) && t@ == "about:blank"@,
            r.title matches Some(t) && t@ == error_title(*self),
            r.status == error_status(*self),
            r.detail@ == error_message(*self),
    {
        let t = self.title();
        ProblemDetails {
            problem_type: Some(string_from("about:blank")),
            title: Some(string_from(t)),
            status: self.status_code(),
            detail: self.message(),
        }
    }
}

/// A storage error that is safe to retry: an internal error reporting an
/// optimistic transaction conflict that asks for a retry.
pub open spec fn transient(e: BrokerError) -> bool {
    e is Internal && has_infix(error_message(e), "transaction conflict"@) && has_infix(
        error_message(e),
        "Please retry"@,
    )
}

/// Returns true for optimistic transaction conflicts that are safe to
/// retry.
pub fn is_transient_error(error: &BrokerError) -> (r: bool)
    ensures
        r == transient(*error),
{
    match error {
        BrokerError::Internal(message) => str_contains(message.as_str(), "transaction conflict") && str_contains(
            message.as_str(),
            "Please retry",
        ),
        _ => false,
    }
}

} // verus!
