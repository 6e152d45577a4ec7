//! Error taxonomy of the gateway, with the transport-status mapping
//! that the API layer applies to each kind.

use vstd::prelude::*;

verus! {

/// Application-wide error type.
///
/// Errors the transports raise (I/O, JSON, HTTP client, RPC status)
/// are carried here as their rendered messages; the dispatch core
/// itself only constructs the dispatch-specific kinds.
#[derive(Debug, Clone, PartialEq, Eq)]
pub enum AppError {
    /// Invalid configuration.
    Config(String),
    /// I/O failure reported by the storage layer.
    Io(String),
    /// JSON (de)serialization failure.
    Json(String),
    /// HTTP client failure other than connect/timeout.
    HttpClient(String),
    /// RPC status failure.
    Grpc(String),
    /// An explicitly named backend is not registered.
    BackendNotFound(String),
    /// No candidate backend passes the health and enabled filters.
    NoHealthyBackends(String),
    /// Authentication failed.
    AuthenticationFailed(String),
    /// Rate limit exceeded.
    RateLimitExceeded,
    /// Caller-side malformed payload.
    InvalidRequest(String),
    /// Backend returned a non-2xx status or an unparseable body.
    BackendError(String),
    /// Deadline elapsed in the queue or in a backend call.
    Timeout(String),
    /// Admission cap of the request queue reached.
    QueueFull,
    /// Connect-or-timeout failure at the socket layer.
    TransportFailed(String),
    /// Invariant violation.
    Internal(String),
}

impl AppError {
    /// HTTP status the API layer maps this error kind to.
    pub fn status_code(&self) -> (code: u16)
        ensures
            code == self.spec_status_code(),
    {
        match self {
            AppError::Config(_) => 500,
            AppError::Io(_) => 500,
            AppError::Json(_) => 400,
            AppError::HttpClient(_) => 502,
            AppError::Grpc(_) => 502,
            AppError::BackendNotFound(_) => 404,
            AppError::NoHealthyBackends(_) => 503,
            AppError::AuthenticationFailed(_) => 401,
            AppError::RateLimitExceeded => 429,
            AppError::InvalidRequest(_) => 400,
            AppError::BackendError(_) => 502,
            AppError::Timeout(_) => 504,
            AppError::QueueFull => 503,
            AppError::TransportFailed(_) => 502,
            AppError::Internal(_) => 500,
        }
    }

    /// The error-type label the API layer reports for this kind.
    pub fn error_kind(&self) -> (r: &'static str)
        ensures
            r@ == self.spec_error_kind(),
    {
        match self {
            AppError::Config(_) => "server_error",
            AppError::Io(_) => "server_error",
            AppError::Json(_) => "invalid_request_error",
            AppError::HttpClient(_) => "backend_error",
            AppError::Grpc(_) => "backend_error",
            AppError::BackendNotFound(_) => "not_found_error",
            AppError::NoHealthyBackends(_) => "server_error",
            AppError::AuthenticationFailed(_) => "authentication_error",
            AppError::RateLimitExceeded => "rate_limit_error",
            AppError::InvalidRequest(_) => "invalid_request_error",
            AppError::BackendError(_) => "backend_error",
            AppError::Timeout(_) => "timeout_error",
            AppError::QueueFull => "server_error",
            AppError::TransportFailed(_) => "backend_error",
            AppError::Internal(_) => "server_error",
        }
    }

    /// The error-type label as a mathematical function of the kind.
    pub open spec fn spec_error_kind(&self) -> Seq<char> {
        match self {
            AppError::Config(_) => "server_error"@,
            AppError::Io(_) => "server_error"@,
            AppError::Json(_) => "invalid_request_error"@,
            AppError::HttpClient(_) => "backend_error"@,
            AppError::Grpc(_) => "backend_error"@,
            AppError::BackendNotFound(_) => "not_found_error"@,
            AppError::NoHealthyBackends(_) => "server_error"@,
            AppError::AuthenticationFailed(_) => "authentication_error"@,
            AppError::RateLimitExceeded => "rate_limit_error"@,
            AppError::InvalidRequest(_) => "invalid_request_error"@,
            AppError::BackendError(_) => "backend_error"@,
            AppError::Timeout(_) => "timeout_error"@,
            AppError::QueueFull => "server_error"@,
            AppError::TransportFailed(_) => "backend_error"@,
            AppError::Internal(_) => "server_error"@,
        }
    }

    /// Status mapping as a mathematical function of the error kind.
    pub open spec fn spec_status_code(&self) -> u16 {
        match self {
            AppError::Config(_) => 500u16,
            AppError::Io(_) => 500u16,
            AppError::Json(_) => 400u16,
            AppError::HttpClient(_) => 502u16,
            AppError::Grpc(_) => 502u16,
            AppError::BackendNotFound(_) => 404u16,
            AppError::NoHealthyBackends(_) => 503u16,
            AppError::AuthenticationFailed(_) => 401u16,
            AppError::RateLimitExceeded => 429u16,
            AppError::InvalidRequest(_) => 400u16,
            AppError::BackendError(_) => 502u16,
            AppError::Timeout(_) => 504u16,
            AppError::QueueFull => 503u16,
            AppError::TransportFailed(_) => 502u16,
            AppError::Internal(_) => 500u16,
        }
    }
}

/// Error response record of the outward API (OpenAI compatible shape).
#[derive(Debug, Clone, PartialEq, Eq)]
pub struct ErrorResponse {
    pub error: ErrorDetail,
}

#[derive(Debug, Clone, PartialEq, Eq)]
pub struct ErrorDetail {
    pub message: String,
    pub kind: String,
    pub code: Option<String>,
}

} // verus!
