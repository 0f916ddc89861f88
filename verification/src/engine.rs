//! The signature engine: the string to sign, the four-step signing-key
//! derivation, the final hex signature, and its constant-time verification.
use vstd::prelude::*;
use crate::auth::{AuthHeaderView, AWSAuthHeader};
use crate::canonical::{get_canonical_request, get_header, header_value, opt_or_empty,
    spec_canonical_request, HttpRequestData, RequestView};
use crate::crypto::{constant_time_eq, get_hmac, get_sha256, hex_encode, hex_of, hmac_sha256,
    sha256_digest};
use crate::errors::AppError;
use crate::names::{algorithm_tag, algorithm_tag_vec, aws4_request_tag, aws4_request_tag_vec,
    x_amz_date_name, x_amz_date_name_vec};

verus! {

/// The credential scope line: the first eight date characters, region,
/// service and the fixed terminator, joined with `/`.
pub open spec fn spec_scope(date: Seq<u8>, region: Seq<u8>, service: Seq<u8>) -> Seq<u8> {
    date.take(8) + seq![47u8] + region + seq![47u8] + service + seq![47u8] + aws4_request_tag()
}

/// The string to sign: algorithm tag, the full date, the scope, and the hex
/// SHA-256 of the canonical request, newline-joined.
pub open spec fn spec_string_to_sign(
    date: Seq<u8>,
    region: Seq<u8>,
    service: Seq<u8>,
    canonical: Seq<u8>,
) -> Seq<u8> {
    algorithm_tag() + seq![10u8] + date + seq![10u8] + spec_scope(date, region, service)
        + seq![10u8] + hex_of(sha256_digest(canonical))
}

/// The scoped signing key: a four-step HMAC-SHA256 chain over the first eight
/// date characters, the region, the service and the fixed terminator.
pub open spec fn spec_signing_key(
    secret: Seq<u8>,
    date: Seq<u8>,
    region: Seq<u8>,
    service: Seq<u8>,
) -> Seq<u8> {
    hmac_sha256(
        hmac_sha256(hmac_sha256(hmac_sha256(secret, date.take(8)), region), service),
        aws4_request_tag(),
    )
}

/// The date the engine signs under: the request's `x-amz-date` header, or
/// empty when absent.
pub open spec fn spec_x_amz_date(req: RequestView) -> Seq<u8> {
    opt_or_empty(header_value(req.headers, x_amz_date_name()))
}

/// The hex SigV4 signature of a request under an auth header's scope and a
/// secret key.
pub open spec fn spec_signature(req: RequestView, auth: AuthHeaderView, secret: Seq<u8>) -> Seq<
    u8,
> {
    let date = spec_x_amz_date(req);
    let region = auth.credential.region;
    let service = auth.credential.service;
    let canonical = spec_canonical_request(req, auth.signed_headers);
    hex_of(
        hmac_sha256(
            spec_signing_key(secret, date, region, service),
            spec_string_to_sign(date, region, service, canonical),
        ),
    )
}

/// Whether a provided signature is accepted against a computed one.
pub open spec fn spec_verify(provided: Seq<u8>, computed: Seq<u8>) -> bool {
    provided == computed
}

/// Builds the string to sign from the date header value, the canonical
/// request and the scope parts.
pub fn get_string_to_sign(
    x_amz_date: &[u8],
    canonical_request: &[u8],
    service: &[u8],
    region: &[u8],
) -> (r: Vec<u8>)
    requires
        x_amz_date@.len() >= 8,
    ensures
        r@ == spec_string_to_sign(x_amz_date@, region@, service@, canonical_request@),
{
    let mut s = algorithm_tag_vec();
    s.push(10u8);
    s.extend_from_slice(x_amz_date);
    s.push(10u8);
    let d8 = &x_amz_date[0..8];
    s.extend_from_slice(d8);
    s.push(47u8);
    s.extend_from_slice(region);
    s.push(47u8);
    s.extend_from_slice(service);
    s.push(47u8);
    let tag = aws4_request_tag_vec();
    s.extend_from_slice(tag.as_slice());
    s.push(10u8);
    let hash = get_sha256(canonical_request);
    let hexed = hex_encode(hash.as_slice());
    s.extend_from_slice(hexed.as_slice());
    proof {
        assert(d8@ =~= x_amz_date@.take(8));
        assert(s@ =~= spec_string_to_sign(x_amz_date@, region@, service@, canonical_request@));
    }
    s
}

/// Derives the scoped signing key from the secret and the scope parts.
pub fn get_signing_key(x_amz_date: &[u8], key_secret: &[u8], region: &[u8], service: &[u8]) -> (r:
    Vec<u8>)
    requires
        x_amz_date@.len() >= 8,
    ensures
        r@ == spec_signing_key(key_secret@, x_amz_date@, region@, service@),
        r@.len() == 32,
{
    let d8 = &x_amz_date[0..8];
    proof {
        assert(d8@ =~= x_amz_date@.take(8));
    }
    let date_key = get_hmac(key_secret, d8);
    let date_region_key = get_hmac(date_key.as_slice(), region);
    let date_region_service_key = get_hmac(date_region_key.as_slice(), service);
    let tag = aws4_request_tag_vec();
    get_hmac(date_region_service_key.as_slice(), tag.as_slice())
}

/// Computes the hex SigV4 signature for a request under a parsed auth header
/// and a secret key. Fails exactly when the request's `x-amz-date` value is
/// shorter than the eight scope-date characters.
pub fn generate_sig_v4(
    req: &HttpRequestData,
    parsed_auth_header: &AWSAuthHeader,
    key_secret: &[u8],
) -> (r: Result<Vec<u8>, AppError>)
    ensures
        r is Ok <==> spec_x_amz_date(req@).len() >= 8,
        r is Ok ==> r->Ok_0@ == spec_signature(req@, parsed_auth_header@, key_secret@),
        r is Err ==> r->Err_0 == AppError::ParseError,
{
    let date_name = x_amz_date_name_vec();
    let date = match get_header(req, date_name.as_slice()) {
        Some(d) => d,
        None => Vec::new(),
    };
    if date.len() < 8 {
        return Err(AppError::ParseError);
    }
    let canonical = get_canonical_request(req, parsed_auth_header);
    let string_to_sign = get_string_to_sign(
        date.as_slice(),
        canonical.as_slice(),
        parsed_auth_header.credential.service.as_slice(),
        parsed_auth_header.credential.region.as_slice(),
    );
    let signing_key = get_signing_key(
        date.as_slice(),
        key_secret,
        parsed_auth_header.credential.region.as_slice(),
        parsed_auth_header.credential.service.as_slice(),
    );
    let mac = get_hmac(signing_key.as_slice(), string_to_sign.as_slice());
    Ok(hex_encode(mac.as_slice()))
}

/// Compares a provided and a computed signature in constant time; acceptance
/// is exactly byte equality.
pub fn verify_signature(provided_signature: &[u8], computed_signature: &[u8]) -> (r: bool)
    ensures
        r == spec_verify(provided_signature@, computed_signature@),
{
    constant_time_eq(provided_signature, computed_signature)
}

/// Law: the signature is deterministic — for a fixed secret key, method,
/// path, query, headers, signed-header list and date, any two computed
/// signatures are byte-identical.
pub proof fn lemma_signature_deterministic(
    req: RequestView,
    auth: AuthHeaderView,
    secret: Seq<u8>,
    s1: Seq<u8>,
    s2: Seq<u8>,
)
    requires
        s1 == spec_signature(req, auth, secret),
        s2 == spec_signature(req, auth, secret),
    ensures
        s1 == s2,
{
}

/// Law: verification is sound for correct signatures — a request whose
/// provided signature equals the one recomputed from the request passes.
pub proof fn lemma_verification_soundness(req: RequestView, auth: AuthHeaderView, secret: Seq<u8>)
    requires
        auth.signature == spec_signature(req, auth, secret),
    ensures
        spec_verify(auth.signature, spec_signature(req, auth, secret)),
{
}

/// Law: verification fails closed — whenever the provided and the computed
/// signatures differ, in length or in content, acceptance is impossible; an
/// empty provided signature is accepted only against an empty computed one.
pub proof fn lemma_verify_fail_closed(provided: Seq<u8>, computed: Seq<u8>)
    requires
        provided != computed,
    ensures
        !spec_verify(provided, computed),
{
}

} // verus!
