//! Upstream faults, reduced to a few causes.

use crate::laws::upstream::law_rate_limits;
use crate::text::{contains, has_substring, lower, to_ascii_lowercase};
use async_openai::error::OpenAIError;
use vstd::prelude::*;

verus! {

/// The cause of an upstream fault.
///
/// It is written into session files, so a variant never changes its meaning.
#[derive(Debug, Clone, Copy, PartialEq, Eq, Structural)]
pub enum ErrorKind {
    /// Invalid credentials or an exhausted balance: a human has to act.
    AuthOrQuota,
    /// Rate limiting: the same request may succeed later.
    RateLimited,
    /// The context exceeds what the model accepts: a shorter history may succeed.
    ContextLengthExceeded,
    /// Network trouble: the request may never have been handled.
    Transport,
    /// Everything else.
    Unknown,
}

impl ErrorKind {
    /// The causes of which the same request may succeed on another try.
    pub open spec fn retryable(self) -> bool {
        self is ContextLengthExceeded || self is RateLimited || self is Transport
    }

    /// May the same request succeed on another try?
    pub fn is_retryable(self) -> (r: bool)
        ensures
            r == self.retryable(),
    {
        matches!(
            self,
            ErrorKind::ContextLengthExceeded | ErrorKind::RateLimited | ErrorKind::Transport
        )
    }
}

/// The upstream says that the context is too long (the texts are in lower case).
pub open spec fn says_context_too_long(code: Seq<char>, message: Seq<char>) -> bool {
    ||| has_substring(code, "context_length_exceeded"@)
    ||| has_substring(message, "context length"@)
    ||| has_substring(message, "maximum context"@)
    ||| has_substring(message, "too many tokens"@)
    ||| has_substring(message, "reduce the length"@)
}

/// The upstream says that the balance is exhausted (the texts are in lower case).
pub open spec fn says_quota_exhausted(code: Seq<char>, message: Seq<char>) -> bool {
    ||| has_substring(code, "insufficient_quota"@)
    ||| has_substring(message, "insufficient balance"@)
    ||| has_substring(message, "insufficient quota"@)
    ||| has_substring(message, "quota"@)
}

/// The cause that an HTTP status alone points to. Server errors have no cause of their own.
pub open spec fn kind_of_status(status: u16) -> ErrorKind {
    if 401 <= status <= 403 {
        ErrorKind::AuthOrQuota
    } else if status == 429 {
        ErrorKind::RateLimited
    } else {
        ErrorKind::Unknown
    }
}

/// The cause of an API error: what the upstream says counts before the status, since gateways
/// report an exhausted balance with the status of rate limiting.
pub open spec fn kind_of_parts(status: u16, code: Seq<char>, message: Seq<char>) -> ErrorKind {
    if says_context_too_long(lower(code), lower(message)) {
        ErrorKind::ContextLengthExceeded
    } else if says_quota_exhausted(lower(code), lower(message)) {
        ErrorKind::AuthOrQuota
    } else {
        kind_of_status(status)
    }
}

/// The text of an optional code; empty where there is none.
pub open spec fn code_text(code: Option<&str>) -> Seq<char> {
    match code {
        Some(text) => text@,
        None => Seq::empty(),
    }
}

/// The cause of an API error, from its HTTP status, its code and its message.
pub fn classify_parts(status: u16, code: Option<&str>, message: &str) -> (r: ErrorKind)
    ensures
        r == kind_of_parts(status, code_text(code), message@),
        r == ErrorKind::RateLimited <==> {
            &&& status == 429
            &&& !has_substring(lower(code_text(code)), "context_length_exceeded"@)
            &&& !has_substring(lower(code_text(code)), "insufficient_quota"@)
            &&& !has_substring(lower(message@), "context length"@)
            &&& !has_substring(lower(message@), "maximum context"@)
            &&& !has_substring(lower(message@), "too many tokens"@)
            &&& !has_substring(lower(message@), "reduce the length"@)
            &&& !has_substring(lower(message@), "quota"@)
            &&& !has_substring(lower(message@), "insufficient balance"@)
        },
{
    proof {
        law_rate_limits(status, code_text(code), message@);
    }
    let code = match code {
        Some(text) => to_ascii_lowercase(text),
        None => {
            let none = String::new();
            assert(none@ =~= lower(Seq::empty()));
            none
        },
    };
    let message = to_ascii_lowercase(message);
    let code = code.as_str();
    let message = message.as_str();
    if contains(code, "context_length_exceeded") || contains(message, "context length")
        || contains(message, "maximum context") || contains(message, "too many tokens")
        || contains(message, "reduce the length") {
        return ErrorKind::ContextLengthExceeded;
    }
    if contains(code, "insufficient_quota") || contains(message, "insufficient balance")
        || contains(message, "insufficient quota") || contains(message, "quota") {
        return ErrorKind::AuthOrQuota;
    }
    match status {
        401..=403 => ErrorKind::AuthOrQuota,
        429 => ErrorKind::RateLimited,
        _ => ErrorKind::Unknown,
    }
}

/// An upstream fault in plain values.
#[derive(Debug)]
pub enum UpstreamFault {
    /// The upstream answered with an error object.
    Api {
        status: u16,
        code: Option<String>,
        error_type: Option<String>,
        message: String,
        /// The whole error in the words of the upstream.
        text: String,
    },
    /// The HTTP exchange failed.
    Http(String),
    /// The response stream broke.
    Stream(String),
    /// Any other error of the client.
    Other(String),
}

/// What an [`UpstreamFault`] holds.
pub enum FaultView {
    Api {
        status: u16,
        code: Option<Seq<char>>,
        error_type: Option<Seq<char>>,
        message: Seq<char>,
        text: Seq<char>,
    },
    Http(Seq<char>),
    Stream(Seq<char>),
    Other(Seq<char>),
}

/// The characters of an optional string.
pub open spec fn opt_text(text: Option<String>) -> Option<Seq<char>> {
    match text {
        Some(text) => Some(text@),
        None => None,
    }
}

impl View for UpstreamFault {
    type V = FaultView;

    open spec fn view(&self) -> FaultView {
        match *self {
            UpstreamFault::Api { status, code, error_type, message, text } => FaultView::Api {
                status,
                code: opt_text(code),
                error_type: opt_text(error_type),
                message: message@,
                text: text@,
            },
            UpstreamFault::Http(text) => FaultView::Http(text@),
            UpstreamFault::Stream(text) => FaultView::Stream(text@),
            UpstreamFault::Other(text) => FaultView::Other(text@),
        }
    }
}

/// The cause of a fault. An error object without a code is judged by its type.
pub open spec fn kind_of_fault(fault: FaultView) -> ErrorKind {
    match fault {
        FaultView::Api { status, code, error_type, message, .. } => kind_of_parts(
            status,
            match (code, error_type) {
                (Some(code), _) => code,
                (None, Some(error_type)) => error_type,
                (None, None) => Seq::empty(),
            },
            message,
        ),
        FaultView::Http(_) => ErrorKind::Transport,
        FaultView::Stream(_) => ErrorKind::Transport,
        FaultView::Other(_) => ErrorKind::Unknown,
    }
}

/// A fault in the words of the upstream.
pub open spec fn words_of_fault(fault: FaultView) -> Seq<char> {
    match fault {
        FaultView::Api { text, .. } => text,
        FaultView::Http(text) => text,
        FaultView::Stream(text) => text,
        FaultView::Other(text) => text,
    }
}

/// The cause of a fault, and the fault in the words of the upstream.
pub fn classify_fault(fault: &UpstreamFault) -> (r: (ErrorKind, String))
    ensures
        r.0 == kind_of_fault(fault@),
        r.1@ == words_of_fault(fault@),
{
    match fault {
        UpstreamFault::Api { status, code, error_type, message, text } => {
            let code = match (code, error_type) {
                (Some(code), _) => Some(code.as_str()),
                (None, Some(error_type)) => Some(error_type.as_str()),
                (None, None) => None,
            };
            (classify_parts(*status, code, message.as_str()), text.clone())
        },
        UpstreamFault::Http(text) => (ErrorKind::Transport, text.clone()),
        UpstreamFault::Stream(text) => (ErrorKind::Transport, text.clone()),
        UpstreamFault::Other(text) => (ErrorKind::Unknown, text.clone()),
    }
}

/// An error of the client library.
#[verifier::external_type_specification]
#[verifier::external_body]
pub struct ExOpenAIError(OpenAIError);

/// What [`OpenAIError`] tells of itself: its variant, the fields of the error object, and its
/// `Display`.
pub uninterp spec fn told_by(error: OpenAIError) -> FaultView;

/// Reads an [`OpenAIError`] into plain values.
///
/// Claimed is that the reading depends on the error alone. For an error object it takes the status
/// code, the code, the type and the message as they are (the type by way of the object's JSON,
/// where it stands under its own name); the words are those of the `Display` of the error object
/// with its status, of the HTTP error, of the stream error, or, for every other variant, of the
/// error itself. How these are worded is left unsaid.
#[verifier::external_body]
fn read_error(error: &OpenAIError) -> (fault: UpstreamFault)
    ensures
        fault@ == told_by(*error),
{
    match error {
        OpenAIError::ApiError(response) => UpstreamFault::Api {
            status: response.status_code.as_u16(),
            code: response.api_error.code.clone(),
            error_type: serde_json::to_value(&response.api_error).ok().and_then(
                |object| object["type"].as_str().map(String::from),
            ),
            message: response.api_error.message.clone(),
            text: response.to_string(),
        },
        OpenAIError::Reqwest(error) => UpstreamFault::Http(error.to_string()),
        OpenAIError::StreamError(error) => UpstreamFault::Stream(error.to_string()),
        other => UpstreamFault::Other(other.to_string()),
    }
}

/// The cause of an error of the client library, and the error in the words of the upstream.
pub fn classify(error: &OpenAIError) -> (r: (ErrorKind, String))
    ensures
        r.0 == kind_of_fault(told_by(*error)),
        r.1@ == words_of_fault(told_by(*error)),
{
    let fault = read_error(error);
    classify_fault(&fault)
}

} // verus!
