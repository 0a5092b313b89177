//! The error that every API operation answers with: an HTTP status, a message
//! for the caller and the kind that decides how a running request reacts.
use vstd::prelude::*;

verus! {

#[derive(PartialEq, Eq, Structural, Clone, Copy, Debug)]
pub enum ApiErrorKind {
    Ordinary,
    ContextOverflow,
    Cancelled,
    /// A failure that may pass: the request is retried, after
    /// `retry_after_ms` when the upstream named a delay.
    Transient { retry_after_ms: Option<u64> },
}

#[derive(Debug)]
pub struct ApiError {
    pub status: u16,
    pub message: String,
    pub kind: ApiErrorKind,
}

/// The error carries `status`, `message` and the ordinary kind.
pub open spec fn ordinary(e: ApiError, status: u16, message: Seq<char>) -> bool {
    e.status == status && e.message@ == message && e.kind == ApiErrorKind::Ordinary
}

impl ApiError {
    pub fn bad_request(message: String) -> (e: ApiError)
        ensures
            ordinary(e, 400, message@),
    {
        ApiError { status: 400, message, kind: ApiErrorKind::Ordinary }
    }

    pub fn unauthorized(message: String) -> (e: ApiError)
        ensures
            ordinary(e, 401, message@),
    {
        ApiError { status: 401, message, kind: ApiErrorKind::Ordinary }
    }

    pub fn forbidden(message: String) -> (e: ApiError)
        ensures
            ordinary(e, 403, message@),
    {
        ApiError { status: 403, message, kind: ApiErrorKind::Ordinary }
    }

    pub fn not_found(message: String) -> (e: ApiError)
        ensures
            ordinary(e, 404, message@),
    {
        ApiError { status: 404, message, kind: ApiErrorKind::Ordinary }
    }

    pub fn conflict(message: String) -> (e: ApiError)
        ensures
            ordinary(e, 409, message@),
    {
        ApiError { status: 409, message, kind: ApiErrorKind::Ordinary }
    }

    pub fn too_many_requests(message: String) -> (e: ApiError)
        ensures
            ordinary(e, 429, message@),
    {
        ApiError { status: 429, message, kind: ApiErrorKind::Ordinary }
    }

    pub fn gone(message: String) -> (e: ApiError)
        ensures
            ordinary(e, 410, message@),
    {
        ApiError { status: 410, message, kind: ApiErrorKind::Ordinary }
    }

    pub fn unavailable(message: String) -> (e: ApiError)
        ensures
            ordinary(e, 503, message@),
    {
        ApiError { status: 503, message, kind: ApiErrorKind::Ordinary }
    }

    pub fn context_overflow(message: String) -> (e: ApiError)
        ensures
            e.status == 503,
            e.message@ == message@,
            e.kind == ApiErrorKind::ContextOverflow,
    {
        ApiError { status: 503, message, kind: ApiErrorKind::ContextOverflow }
    }

    /// A retryable upstream failure.
    pub fn transient(message: String, retry_after_ms: Option<u64>) -> (e: ApiError)
        ensures
            e.status == 503,
            e.message@ == message@,
            e.kind == (ApiErrorKind::Transient { retry_after_ms }),
    {
        ApiError { status: 503, message, kind: ApiErrorKind::Transient { retry_after_ms } }
    }

    pub fn cancelled() -> (e: ApiError)
        ensures
            e.status == 408,
            e.message@ == "request superseded by a newer input"@,
            e.kind == ApiErrorKind::Cancelled,
    {
        ApiError {
            status: 408,
            message: "request superseded by a newer input".to_owned(),
            kind: ApiErrorKind::Cancelled,
        }
    }

    /// The answer for a failure whose cause stays on the server.
    pub fn internal() -> (e: ApiError)
        ensures
            ordinary(e, 500, "Cybion could not complete the request"@),
    {
        ApiError {
            status: 500,
            message: "Cybion could not complete the request".to_owned(),
            kind: ApiErrorKind::Ordinary,
        }
    }

    pub fn is_context_overflow(&self) -> (r: bool)
        ensures
            r == (self.kind == ApiErrorKind::ContextOverflow),
    {
        self.kind == ApiErrorKind::ContextOverflow
    }

    pub fn is_cancelled(&self) -> (r: bool)
        ensures
            r == (self.kind == ApiErrorKind::Cancelled),
    {
        self.kind == ApiErrorKind::Cancelled
    }

    pub fn is_transient(&self) -> (r: bool)
        ensures
            r == (self.kind is Transient),
    {
        match self.kind {
            ApiErrorKind::Transient { .. } => true,
            _ => false,
        }
    }

    /// Whether the status is a client error (4xx).
    pub fn is_client_error(&self) -> (r: bool)
        ensures
            r == (400 <= self.status < 500),
    {
        400 <= self.status && self.status < 500
    }
}

} // verus!
