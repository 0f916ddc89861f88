use sigv4_proxy::errors::AppError;
use sigv4_proxy::pipeline::{admit_request, check_body_size, check_deadline};
use sigv4_proxy::rate_limiter::RateLimiter;

#[test]
fn test_rate_limit_window() {
    // Capacity 10 per 60 ticks: ten requests pass, the eleventh is rejected,
    // and once the window has elapsed the client is admitted again.
    let mut limiter = RateLimiter::new(10, 60);
    let client = 0x0a000001u64;
    for k in 0..10u64 {
        assert!(limiter.check_and_update(client, k));
    }
    assert!(!limiter.check_and_update(client, 10));
    assert!(limiter.check_and_update(client, 61));
}

#[test]
fn test_rate_limit_clients_independent() {
    let mut limiter = RateLimiter::new(2, 60);
    assert!(limiter.check_and_update(1, 0));
    assert!(limiter.check_and_update(1, 1));
    assert!(!limiter.check_and_update(1, 2));
    assert!(limiter.check_and_update(2, 2));
}

#[test]
fn test_rate_limit_zero_capacity() {
    let mut limiter = RateLimiter::new(0, 60);
    assert!(!limiter.check_and_update(7, 0));
}

#[test]
fn test_rate_limit_lazy_eviction() {
    // Stale timestamps of the touched client are dropped on access.
    let mut limiter = RateLimiter::new(1, 10);
    assert!(limiter.check_and_update(5, 0));
    assert!(!limiter.check_and_update(5, 5));
    assert!(limiter.check_and_update(5, 100));
    assert!(!limiter.check_and_update(5, 101));
}

#[test]
fn test_body_size_gate() {
    // A body at or above the cap is rejected before anything is sent.
    assert!(check_body_size(999_999, 1_000_000).is_ok());
    assert_eq!(check_body_size(1_000_000, 1_000_000), Err(AppError::PayloadTooLarge));
    assert_eq!(check_body_size(1_500_000, 1_000_000), Err(AppError::PayloadTooLarge));
}

#[test]
fn test_deadline_gate() {
    assert!(check_deadline(60, 60).is_ok());
    assert_eq!(check_deadline(61, 60), Err(AppError::RequestTimeout));
}

#[test]
fn test_admission_gate_order() {
    // The rate limiter decides before the body-size cap.
    let mut limiter = RateLimiter::new(1, 60);
    assert_eq!(admit_request(&mut limiter, 9, 0, 10, 100), Ok(()));
    assert_eq!(
        admit_request(&mut limiter, 9, 1, 200, 100),
        Err(AppError::RateLimitExceeded)
    );
    let mut limiter = RateLimiter::new(1, 60);
    assert_eq!(
        admit_request(&mut limiter, 9, 0, 200, 100),
        Err(AppError::PayloadTooLarge)
    );
}

#[test]
fn test_rate_limit_increment_unconditional() {
    // An admitted request is recorded even when a later gate rejects it.
    let mut limiter = RateLimiter::new(1, 60);
    assert_eq!(
        admit_request(&mut limiter, 3, 0, 5_000_000, 1_000_000),
        Err(AppError::PayloadTooLarge)
    );
    assert_eq!(
        admit_request(&mut limiter, 3, 1, 10, 1_000_000),
        Err(AppError::RateLimitExceeded)
    );
}

#[test]
fn test_status_codes() {
    assert_eq!(AppError::ParseError.status_code(), 400);
    assert_eq!(AppError::UnknownCredential.status_code(), 401);
    assert_eq!(AppError::SignatureMismatch.status_code(), 401);
    assert_eq!(AppError::RateLimitExceeded.status_code(), 429);
    assert_eq!(AppError::PayloadTooLarge.status_code(), 413);
    assert_eq!(AppError::RequestTimeout.status_code(), 504);
    assert_eq!(AppError::UpstreamUnreachable.status_code(), 502);
    assert_eq!(AppError::InternalError.status_code(), 500);
}

#[test]
fn test_error_messages() {
    assert_eq!(AppError::RateLimitExceeded.message(), "rate limit exceeded");
    assert_eq!(AppError::PayloadTooLarge.message(), "payload too large");
    assert_eq!(AppError::RequestTimeout.message(), "request timed out");
    assert_eq!(AppError::SignatureMismatch.message(), "authentication failed");
    assert_eq!(AppError::rate_limited(), AppError::RateLimitExceeded);
}
