//! The request-gating pipeline: rate limit, body-size cap and deadline gates
//! in fixed order, then authentication, verification and re-signing. Each
//! stage either passes the request on or rejects it with exactly one error;
//! a rejection is terminal.
use vstd::prelude::*;
use crate::auth::{get_aws_auth_header, spec_parse_auth_header, AuthHeaderView, AWSAuthHeader};
use crate::canonical::{get_header, header_value, HttpRequestData, RequestView};
use crate::engine::{generate_sig_v4, spec_signature, spec_verify, spec_x_amz_date,
    verify_signature};
use crate::errors::AppError;
use crate::names::{authorization_name, authorization_name_vec, host_name, x_amz_date_name,
    x_amz_date_name_vec};
use crate::rate_limiter::{recent, RateLimiter};
use crate::rewrite::{lemma_header_value_after_set, resign_request, spec_rehost, spec_resign};

verus! {

/// The body-size gate: a declared body length at or above the cap is
/// rejected before any byte is sent upstream.
pub fn check_body_size(body_len: u64, cap: u64) -> (r: Result<(), AppError>)
    ensures
        r is Ok <==> body_len < cap,
        r is Err ==> r->Err_0 == AppError::PayloadTooLarge,
{
    if body_len < cap {
        Ok(())
    } else {
        Err(AppError::PayloadTooLarge)
    }
}

/// The deadline gate: a request past its per-request timeout is rejected.
pub fn check_deadline(elapsed: u64, timeout: u64) -> (r: Result<(), AppError>)
    ensures
        r is Ok <==> elapsed <= timeout,
        r is Err ==> r->Err_0 == AppError::RequestTimeout,
{
    if elapsed <= timeout {
        Ok(())
    } else {
        Err(AppError::RequestTimeout)
    }
}

/// The admission gates in pipeline order: the rate limiter decides first —
/// and records an admitted request whatever later stages do — then the
/// body-size cap. The first failing gate names the rejection.
pub fn admit_request(
    limiter: &mut RateLimiter,
    client: u64,
    now: u64,
    body_len: u64,
    cap: u64,
) -> (r: Result<(), AppError>)
    requires
        old(limiter).wf(),
    ensures
        final(limiter).wf(),
        final(limiter).capacity == old(limiter).capacity,
        final(limiter).window == old(limiter).window,
        ({
            let admitted = recent(
                old(limiter).timestamps_of(client),
                now,
                old(limiter).window,
            ).len() < old(limiter).capacity;
            &&& (r is Ok <==> admitted && body_len < cap)
            &&& (!admitted ==> r == Err::<(), AppError>(AppError::RateLimitExceeded))
            &&& (admitted && body_len >= cap ==> r == Err::<(), AppError>(
                AppError::PayloadTooLarge,
            ))
            &&& final(limiter).timestamps_of(client) == if admitted {
                recent(old(limiter).timestamps_of(client), now, old(limiter).window).push(now)
            } else {
                recent(old(limiter).timestamps_of(client), now, old(limiter).window)
            }
        }),
        forall|c: u64| c != client ==> final(limiter).timestamps_of(c) == old(
            limiter,
        ).timestamps_of(c),
{
    let admitted = limiter.check_and_update(client, now);
    if !admitted {
        return Err(AppError::rate_limited());
    }
    check_body_size(body_len, cap)
}

/// What processing decides for an authenticated, re-signed request: the
/// Authorization header is required and parsed; the credential store must
/// know the key; the date must carry the eight scope characters; the
/// provided signature must equal the recomputed one; then the request is
/// rewritten for the upstream host and re-signed.
pub open spec fn spec_process_request(
    req: RequestView,
    secret: Option<Seq<u8>>,
    new_host: Seq<u8>,
) -> Result<(RequestView, AuthHeaderView), AppError> {
    match header_value(req.headers, authorization_name()) {
        None => Err(AppError::ParseError),
        Some(text) => {
            let auth = spec_parse_auth_header(text);
            match secret {
                None => Err(AppError::UnknownCredential),
                Some(key) => {
                    if spec_x_amz_date(req).len() < 8 {
                        Err(AppError::ParseError)
                    } else if !spec_verify(auth.signature, spec_signature(req, auth, key)) {
                        Err(AppError::SignatureMismatch)
                    } else {
                        spec_resign(req, auth, key, new_host)
                    }
                },
            }
        },
    }
}

/// Authenticates the request against the credential-store result, verifies
/// its signature in constant time, and rewrites it for the upstream host,
/// re-signing when the host is among the signed headers. On rejection the
/// request is left unchanged; the proxy never forwards on a mismatch.
pub fn process_request(
    req: &mut HttpRequestData,
    key_secret: Option<&Vec<u8>>,
    new_host: &[u8],
) -> (r: Result<AWSAuthHeader, AppError>)
    ensures
        ({
            let secret = match key_secret {
                Some(k) => Some(k@),
                None => None,
            };
            match r {
                Ok(a2) => spec_process_request(old(req)@, secret, new_host@) == Ok::<
                    (RequestView, AuthHeaderView),
                    AppError,
                >((final(req)@, a2@)),
                Err(e) => spec_process_request(old(req)@, secret, new_host@) == Err::<
                    (RequestView, AuthHeaderView),
                    AppError,
                >(e) && final(req)@ == old(req)@,
            }
        }),
{
    let an = authorization_name_vec();
    let auth_text = match get_header(req, an.as_slice()) {
        Some(t) => t,
        None => {
            return Err(AppError::ParseError);
        },
    };
    let parsed = match get_aws_auth_header(Some(&auth_text)) {
        Ok(a) => a,
        Err(e) => {
            proof {
                assert(false);
            }
            return Err(e);
        },
    };
    let key = match key_secret {
        Some(k) => k,
        None => {
            return Err(AppError::UnknownCredential);
        },
    };
    let dn = x_amz_date_name_vec();
    let date = match get_header(req, dn.as_slice()) {
        Some(d) => d,
        None => Vec::new(),
    };
    if date.len() < 8 {
        return Err(AppError::ParseError);
    }
    let computed = match generate_sig_v4(req, &parsed, key.as_slice()) {
        Ok(s) => s,
        Err(e) => {
            proof {
                assert(false);
            }
            return Err(e);
        },
    };
    if !verify_signature(parsed.signature.as_slice(), computed.as_slice()) {
        return Err(AppError::SignatureMismatch);
    }
    match resign_request(req, &parsed, key.as_slice(), new_host) {
        Ok(a2) => Ok(a2),
        Err(e) => {
            proof {
                assert(host_name().len() == 4);
                assert(x_amz_date_name().len() == 10);
                lemma_header_value_after_set(
                    old(req)@.headers,
                    host_name(),
                    new_host@,
                    x_amz_date_name(),
                );
                assert(spec_x_amz_date(spec_rehost(old(req)@, new_host@)) == spec_x_amz_date(
                    old(req)@,
                ));
                assert(false);
            }
            Err(e)
        },
    }
}

} // verus!
