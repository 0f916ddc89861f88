//! The error taxonomy of the pipeline and its mapping to HTTP status codes.
use vstd::prelude::*;

verus! {

/// Every way a request can be rejected; each stage of the pipeline maps its
/// failure to exactly one of these, and each carries one HTTP status.
#[derive(Clone, Copy, Debug, PartialEq, Eq, Structural)]
pub enum AppError {
    /// The Authorization header is missing or structurally malformed.
    ParseError,
    /// The access-key id has no secret in the credential store.
    UnknownCredential,
    /// The provided and the recomputed signature differ.
    SignatureMismatch,
    /// The client exceeded its sliding-window allowance.
    RateLimitExceeded,
    /// The declared body size reaches the configured cap.
    PayloadTooLarge,
    /// The request ran past its deadline.
    RequestTimeout,
    /// The upstream could not be reached or failed.
    UpstreamUnreachable,
    /// Any unexpected failure.
    InternalError,
}

/// The HTTP status owed to each rejection.
pub open spec fn spec_status_code(e: AppError) -> u16 {
    match e {
        AppError::ParseError => 400u16,
        AppError::UnknownCredential => 401u16,
        AppError::SignatureMismatch => 401u16,
        AppError::RateLimitExceeded => 429u16,
        AppError::PayloadTooLarge => 413u16,
        AppError::RequestTimeout => 504u16,
        AppError::UpstreamUnreachable => 502u16,
        AppError::InternalError => 500u16,
    }
}

impl AppError {
    /// The HTTP status for this rejection.
    pub fn status_code(&self) -> (r: u16)
        ensures
            r == spec_status_code(*self),
    {
        match self {
            AppError::ParseError => 400,
            AppError::UnknownCredential => 401,
            AppError::SignatureMismatch => 401,
            AppError::RateLimitExceeded => 429,
            AppError::PayloadTooLarge => 413,
            AppError::RequestTimeout => 504,
            AppError::UpstreamUnreachable => 502,
            AppError::InternalError => 500,
        }
    }

    /// The response body for this rejection; never holds secret material.
    pub fn message(&self) -> (r: &'static str)
        ensures
            *self == AppError::ParseError ==> r@ == "malformed authorization header"@,
            *self == AppError::UnknownCredential ==> r@ == "authentication failed"@,
            *self == AppError::SignatureMismatch ==> r@ == "authentication failed"@,
            *self == AppError::RateLimitExceeded ==> r@ == "rate limit exceeded"@,
            *self == AppError::PayloadTooLarge ==> r@ == "payload too large"@,
            *self == AppError::RequestTimeout ==> r@ == "request timed out"@,
            *self == AppError::UpstreamUnreachable ==> r@ == "upstream unreachable"@,
            *self == AppError::InternalError ==> r@ == "internal error"@,
    {
        match self {
            AppError::ParseError => "malformed authorization header",
            AppError::UnknownCredential => "authentication failed",
            AppError::SignatureMismatch => "authentication failed",
            AppError::RateLimitExceeded => "rate limit exceeded",
            AppError::PayloadTooLarge => "payload too large",
            AppError::RequestTimeout => "request timed out",
            AppError::UpstreamUnreachable => "upstream unreachable",
            AppError::InternalError => "internal error",
        }
    }

    /// The rejection that the rate-limiting gate issues.
    pub fn rate_limited() -> (r: Self)
        ensures
            r == AppError::RateLimitExceeded,
    {
        AppError::RateLimitExceeded
    }
}

} // verus!
