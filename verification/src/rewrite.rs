//! Request rewriting for forwarding: replacing the Host header and, when the
//! host is among the signed headers, recomputing the signature and splicing
//! it into the Authorization header text in place.
use vstd::prelude::*;
use crate::auth::{AuthHeaderView, AWSAuthHeader};
use crate::bytes::{copy_bytes, bytes_eq, has_prefix, starts_with_bytes, views_of};
use crate::canonical::{header_value, lemma_canonical_request_header_order_independent,
    opt_or_empty, HttpRequestData, RequestView};
use crate::engine::{generate_sig_v4, spec_signature, spec_verify, spec_x_amz_date};
use crate::errors::AppError;
use crate::names::{authorization_name, authorization_name_vec, content_sha256_name, host_name,
    host_name_vec, signature_param, signature_param_vec, x_amz_date_name};

verus! {

/// The header list with every entry named `name` removed, order kept.
pub open spec fn remove_header(headers: Seq<(Seq<u8>, Seq<u8>)>, name: Seq<u8>) -> Seq<
    (Seq<u8>, Seq<u8>),
>
    decreases headers.len(),
{
    if headers.len() == 0 {
        Seq::<(Seq<u8>, Seq<u8>)>::empty()
    } else if headers[0].0 == name {
        remove_header(headers.drop_first(), name)
    } else {
        seq![headers[0]] + remove_header(headers.drop_first(), name)
    }
}

/// The request with `name` bound to `value` and every earlier binding gone.
pub open spec fn spec_set_header(req: RequestView, name: Seq<u8>, value: Seq<u8>) -> RequestView {
    RequestView { headers: remove_header(req.headers, name).push((name, value)), ..req }
}

/// After setting a header, looking that name up yields the new value, and
/// every other name resolves as before.
pub proof fn lemma_header_value_after_set(
    headers: Seq<(Seq<u8>, Seq<u8>)>,
    name: Seq<u8>,
    value: Seq<u8>,
    m: Seq<u8>,
)
    ensures
        header_value(remove_header(headers, name).push((name, value)), name) == Some(value),
        m != name ==> header_value(remove_header(headers, name).push((name, value)), m)
            == header_value(headers, m),
    decreases headers.len(),
{
    if headers.len() == 0 {
        let one = remove_header(headers, name).push((name, value));
        assert(one[0] == (name, value));
        assert(one.drop_first() =~= Seq::<(Seq<u8>, Seq<u8>)>::empty());
        if m != name {
            assert(header_value(one, m) == header_value(one.drop_first(), m));
        }
    } else {
        lemma_header_value_after_set(headers.drop_first(), name, value, m);
        let p = headers[0];
        if p.0 == name {
            assert(remove_header(headers, name) == remove_header(headers.drop_first(), name));
            if m != name {
                assert(header_value(headers, m) == header_value(headers.drop_first(), m));
            }
        } else {
            let rest = remove_header(headers.drop_first(), name).push((name, value));
            assert(remove_header(headers, name).push((name, value)) =~= seq![p] + rest);
            assert((seq![p] + rest)[0] == p);
            assert((seq![p] + rest).drop_first() =~= rest);
            assert(header_value(seq![p] + rest, name) == if p.0 == name {
                Some(p.1)
            } else {
                header_value(rest, name)
            });
            assert(header_value(seq![p] + rest, m) == if p.0 == m {
                Some(p.1)
            } else {
                header_value(rest, m)
            });
            if m != name {
                assert(header_value(headers, m) == if p.0 == m {
                    Some(p.1)
                } else {
                    header_value(headers.drop_first(), m)
                });
            }
        }
    }
}

/// Replaces the Host header with `new_host`.
pub fn set_host_header(req: &mut HttpRequestData, new_host: &[u8])
    ensures
        final(req)@ == spec_set_header(old(req)@, host_name(), new_host@),
{
    let name = host_name_vec();
    set_header(req, name.as_slice(), new_host);
}

/// Binds `name` to `value` in the request's header list, dropping every
/// earlier binding of that name.
pub fn set_header(req: &mut HttpRequestData, name: &[u8], value: &[u8])
    ensures
        final(req)@ == spec_set_header(old(req)@, name@, value@),
{
    let ghost hs = req@.headers;
    let mut kept: Vec<(Vec<u8>, Vec<u8>)> = Vec::new();
    let mut i: usize = 0;
    proof {
        assert(hs.skip(0) =~= hs);
        assert(views_of_pairs(kept@) =~= Seq::<(Seq<u8>, Seq<u8>)>::empty());
    }
    while i < req.headers.len()
        invariant
            0 <= i <= req.headers@.len(),
            hs == req@.headers,
            remove_header(hs, name@) == views_of_pairs(kept@) + remove_header(
                hs.skip(i as int),
                name@,
            ),
        decreases req.headers@.len() - i,
    {
        proof {
            assert(hs.skip(i as int)[0] == hs[i as int]);
            assert(hs.skip(i as int).drop_first() =~= hs.skip(i + 1));
        }
        if !bytes_eq(req.headers[i].0.as_slice(), name) {
            let n = copy_bytes(req.headers[i].0.as_slice());
            let v = copy_bytes(req.headers[i].1.as_slice());
            kept.push((n, v));
            proof {
                assert(views_of_pairs(kept@) =~= views_of_pairs(kept@.drop_last()) + seq![
                    hs[i as int],
                ]);
            }
        }
        i += 1;
    }
    proof {
        assert(hs.skip(i as int) =~= Seq::<(Seq<u8>, Seq<u8>)>::empty());
        assert(remove_header(hs, name@) == views_of_pairs(kept@) + remove_header(
            Seq::<(Seq<u8>, Seq<u8>)>::empty(),
            name@,
        ));
        assert(views_of_pairs(kept@) + remove_header(Seq::<(Seq<u8>, Seq<u8>)>::empty(), name@)
            =~= views_of_pairs(kept@));
    }
    kept.push((copy_bytes(name), copy_bytes(value)));
    req.headers = kept;
    proof {
        assert(views_of_pairs(req.headers@) =~= remove_header(hs, name@).push((name@, value@)));
        assert(req@ =~~= spec_set_header(old(req)@, name@, value@));
    }
}

/// The views of a sequence of header pairs.
pub open spec fn views_of_pairs(s: Seq<(Vec<u8>, Vec<u8>)>) -> Seq<(Seq<u8>, Seq<u8>)> {
    s.map_values(|p: (Vec<u8>, Vec<u8>)| (p.0@, p.1@))
}

/// The length of the maximal comma-free prefix of `s`.
pub open spec fn run_non_comma(s: Seq<u8>) -> nat
    decreases s.len(),
{
    if s.len() == 0 || s[0] == 44u8 {
        0
    } else {
        (1 + run_non_comma(s.drop_first())) as nat
    }
}

pub proof fn lemma_run_non_comma_le(s: Seq<u8>)
    ensures
        run_non_comma(s) <= s.len(),
    decreases s.len(),
{
    if s.len() == 0 || s[0] == 44u8 {
    } else {
        lemma_run_non_comma_le(s.drop_first());
    }
}

pub open spec fn spec_min(a: int, b: int) -> int {
    if a < b {
        a
    } else {
        b
    }
}

/// The text with every `Signature=` token's value replaced by `sig`: scanning
/// left to right, each occurrence of `Signature=` followed by at least one
/// non-comma byte has that comma-free run replaced, and scanning resumes
/// after it; everything else is copied unchanged.
pub open spec fn replace_sig(s: Seq<u8>, sig: Seq<u8>) -> Seq<u8>
    decreases s.len(),
{
    if s.len() == 0 {
        s
    } else if has_prefix(s, signature_param()) && s.len() > 10 && s[10] != 44u8 {
        let n = spec_min(10 + run_non_comma(s.skip(10)) as int, s.len() as int);
        signature_param() + sig + replace_sig(s.skip(n), sig)
    } else {
        seq![s[0]] + replace_sig(s.drop_first(), sig)
    }
}

/// Splices `sig` over every `Signature=` value inside the header text.
#[verifier::loop_isolation(false)]
pub fn replace_signature_value(text: &[u8], sig: &[u8]) -> (r: Vec<u8>)
    ensures
        r@ == replace_sig(text@, sig@),
{
    let param = signature_param_vec();
    let mut out: Vec<u8> = Vec::new();
    let mut i: usize = 0;
    proof {
        assert(text@.skip(0) =~= text@);
    }
    while i < text.len()
        invariant
            0 <= i <= text@.len(),
            param@ == signature_param(),
            replace_sig(text@, sig@) == out@ + replace_sig(text@.skip(i as int), sig@),
        decreases text@.len() - i,
    {
        let ghost s = text@.skip(i as int);
        let rest = &text[i..text.len()];
        proof {
            assert(rest@ =~= s);
        }
        let matched = if starts_with_bytes(rest, param.as_slice()) {
            i + 10 < text.len() && text[i + 10] != 44u8
        } else {
            false
        };
        if matched {
            let ghost out0 = out@;
            out.extend_from_slice(param.as_slice());
            out.extend_from_slice(sig);
            let mut j: usize = i + 10;
            proof {
                assert(s[10] == text@[i + 10]);
                assert(text@.skip((i + 10) as int) =~= s.skip(10));
            }
            while j < text.len() && text[j] != 44u8
                invariant
                    i + 10 <= j <= text@.len(),
                    i + 10 < text@.len(),
                    run_non_comma(text@.skip((i + 10) as int)) == (j - i - 10) + run_non_comma(
                        text@.skip(j as int),
                    ),
                decreases text@.len() - j,
            {
                proof {
                    assert(text@.skip(j as int)[0] == text@[j as int]);
                    assert(text@.skip(j as int).drop_first() =~= text@.skip(j + 1));
                }
                j += 1;
            }
            proof {
                if j < text.len() {
                    assert(run_non_comma(text@.skip(j as int)) == 0);
                } else {
                    assert(text@.skip(j as int) =~= Seq::<u8>::empty());
                }
                assert(run_non_comma(s.skip(10)) == j - i - 10);
                lemma_run_non_comma_le(s.skip(10));
                let n = spec_min(10 + run_non_comma(s.skip(10)) as int, s.len() as int);
                assert(n == j - i);
                assert(s.skip(n) =~= text@.skip(j as int));
                assert(replace_sig(s, sig@) == signature_param() + sig@ + replace_sig(
                    text@.skip(j as int),
                    sig@,
                ));
                assert(out0 + replace_sig(s, sig@) =~= out@ + replace_sig(
                    text@.skip(j as int),
                    sig@,
                ));
            }
            i = j;
        } else {
            let ghost out0 = out@;
            let b = text[i];
            out.push(b);
            proof {
                assert(s[0] == text@[i as int]);
                assert(s.drop_first() =~= text@.skip(i + 1));
                assert(replace_sig(s, sig@) == seq![s[0]] + replace_sig(text@.skip(i + 1), sig@));
                assert(out0 + replace_sig(s, sig@) =~= out@ + replace_sig(text@.skip(i + 1), sig@));
            }
            i += 1;
        }
    }
    proof {
        assert(text@.skip(i as int) =~= Seq::<u8>::empty());
    }
    out
}

/// Whether one of the names equals `name`.
pub fn contains_name(names: &Vec<Vec<u8>>, name: &[u8]) -> (r: bool)
    ensures
        r == views_of(names@).contains(name@),
{
    let mut i: usize = 0;
    while i < names.len()
        invariant
            0 <= i <= names@.len(),
            forall|j: int| 0 <= j < i ==> views_of(names@)[j] != name@,
        decreases names@.len() - i,
    {
        if bytes_eq(names[i].as_slice(), name) {
            proof {
                assert(views_of(names@)[i as int] == name@);
            }
            return true;
        }
        i += 1;
    }
    false
}

/// A copy of a parsed auth header.
pub fn clone_auth_header(a: &AWSAuthHeader) -> (r: AWSAuthHeader)
    ensures
        r@ == a@,
{
    let mut signed: Vec<Vec<u8>> = Vec::new();
    let mut i: usize = 0;
    while i < a.signed_headers.len()
        invariant
            0 <= i <= a.signed_headers@.len(),
            views_of(signed@) == views_of(a.signed_headers@).take(i as int),
        decreases a.signed_headers@.len() - i,
    {
        let ghost sv = views_of(signed@);
        let c = copy_bytes(a.signed_headers[i].as_slice());
        signed.push(c);
        proof {
            assert(views_of(signed@) =~= sv.push(c@));
            assert(sv.push(c@) =~= views_of(a.signed_headers@).take(i + 1));
        }
        i += 1;
    }
    proof {
        assert(views_of(a.signed_headers@).take(i as int) =~= views_of(a.signed_headers@));
    }
    let r = AWSAuthHeader {
        credential: crate::auth::AWSAuthHeaderCredential {
            key_id: copy_bytes(a.credential.key_id.as_slice()),
            date: copy_bytes(a.credential.date.as_slice()),
            region: copy_bytes(a.credential.region.as_slice()),
            service: copy_bytes(a.credential.service.as_slice()),
            request: copy_bytes(a.credential.request.as_slice()),
        },
        signed_headers: signed,
        signature: copy_bytes(a.signature.as_slice()),
    };
    proof {
        assert(r@ =~~= a@);
    }
    r
}

/// The request with its Host header bound to the upstream host.
pub open spec fn spec_rehost(req: RequestView, host: Seq<u8>) -> RequestView {
    spec_set_header(req, host_name(), host)
}

/// Re-signing for a new host: the host header is rewritten; if `host` is not
/// among the signed names nothing more changes; otherwise the signature is
/// recomputed over the rewritten request and spliced over every `Signature=`
/// value of the Authorization header text, whose `Credential=` and
/// `SignedHeaders=` parts stay untouched. Fails exactly when the signature
/// must be recomputed and the date header is shorter than eight characters.
pub open spec fn spec_resign(
    req: RequestView,
    auth: AuthHeaderView,
    secret: Seq<u8>,
    host: Seq<u8>,
) -> Result<(RequestView, AuthHeaderView), AppError> {
    let req2 = spec_rehost(req, host);
    if !auth.signed_headers.contains(host_name()) {
        Ok((req2, auth))
    } else if spec_x_amz_date(req2).len() < 8 {
        Err(AppError::ParseError)
    } else {
        let sig = spec_signature(req2, auth, secret);
        let text = replace_sig(
            opt_or_empty(header_value(req2.headers, authorization_name())),
            sig,
        );
        let req3 = spec_set_header(req2, authorization_name(), text);
        Ok((req3, AuthHeaderView { signature: sig, ..auth }))
    }
}

/// Rewrites the request in place for the new host and re-signs it when the
/// host is among the signed headers; returns the auth header that now
/// describes the request.
pub fn resign_request(
    req: &mut HttpRequestData,
    parsed_auth_header: &AWSAuthHeader,
    key_secret: &[u8],
    new_host: &[u8],
) -> (r: Result<AWSAuthHeader, AppError>)
    ensures
        match r {
            Ok(a2) => spec_resign(old(req)@, parsed_auth_header@, key_secret@, new_host@) == Ok::<
                (RequestView, AuthHeaderView),
                AppError,
            >((final(req)@, a2@)),
            Err(e) => spec_resign(old(req)@, parsed_auth_header@, key_secret@, new_host@) == Err::<
                (RequestView, AuthHeaderView),
                AppError,
            >(e) && final(req)@ == spec_rehost(old(req)@, new_host@),
        },
{
    set_host_header(req, new_host);
    let hn = host_name_vec();
    if !contains_name(&parsed_auth_header.signed_headers, hn.as_slice()) {
        return Ok(clone_auth_header(parsed_auth_header));
    }
    let sig = match generate_sig_v4(req, parsed_auth_header, key_secret) {
        Ok(s) => s,
        Err(e) => {
            return Err(e);
        },
    };
    let an = authorization_name_vec();
    let auth_text = match crate::canonical::get_header(req, an.as_slice()) {
        Some(t) => t,
        None => Vec::new(),
    };
    let new_text = replace_signature_value(auth_text.as_slice(), sig.as_slice());
    set_header(req, an.as_slice(), new_text.as_slice());
    let mut a2 = clone_auth_header(parsed_auth_header);
    a2.signature = sig;
    proof {
        assert(a2@ =~~= AuthHeaderView { signature: sig@, ..parsed_auth_header@ });
    }
    Ok(a2)
}

/// The signature does not read a header that is not signed: binding any name
/// outside the signed list (other than the date and payload-hash names) to
/// any value leaves the signature unchanged.
pub proof fn lemma_signature_ignores_unsigned_header(
    req: RequestView,
    auth: AuthHeaderView,
    secret: Seq<u8>,
    name: Seq<u8>,
    value: Seq<u8>,
)
    requires
        !auth.signed_headers.contains(name),
        name != x_amz_date_name(),
        name != content_sha256_name(),
    ensures
        spec_signature(spec_set_header(req, name, value), auth, secret) == spec_signature(
            req,
            auth,
            secret,
        ),
{
    let req2 = spec_set_header(req, name, value);
    lemma_header_value_after_set(req.headers, name, value, x_amz_date_name());
    lemma_header_value_after_set(req.headers, name, value, content_sha256_name());
    assert forall|j: int|
        0 <= j < auth.signed_headers.len() implies header_value(
        req2.headers,
        #[trigger] auth.signed_headers[j],
    ) == header_value(req.headers, auth.signed_headers[j]) by {
        if auth.signed_headers[j] == name {
            assert(auth.signed_headers.contains(name));
        }
        lemma_header_value_after_set(req.headers, name, value, auth.signed_headers[j]);
    }
    lemma_canonical_request_header_order_independent(req2, req, auth.signed_headers);
    assert(spec_x_amz_date(req2) == spec_x_amz_date(req));
}

/// Law: re-signing is correct — given a request that verifies against its
/// auth header, rewriting it to target a new host with `host` among the
/// signed names yields an auth header whose signature verifies against the
/// rewritten request; method, path, query and the other signed values are
/// unchanged. Holds provided the authorization header itself is not signed.
pub proof fn lemma_resign_verifies(
    req: RequestView,
    auth: AuthHeaderView,
    secret: Seq<u8>,
    host: Seq<u8>,
)
    requires
        !auth.signed_headers.contains(authorization_name()),
        spec_verify(auth.signature, spec_signature(req, auth, secret)),
        spec_resign(req, auth, secret, host) is Ok,
    ensures
        ({
            let (req_out, auth_out) = spec_resign(req, auth, secret, host)->Ok_0;
            spec_verify(auth_out.signature, spec_signature(req_out, auth_out, secret))
        }),
{
    let req2 = spec_rehost(req, host);
    assert(host_name().len() == 4);
    assert(x_amz_date_name().len() == 10);
    assert(content_sha256_name().len() == 20);
    assert(authorization_name().len() == 13);
    if !auth.signed_headers.contains(host_name()) {
        lemma_signature_ignores_unsigned_header(req, auth, secret, host_name(), host);
    } else {
        let sig = spec_signature(req2, auth, secret);
        let text = replace_sig(
            opt_or_empty(header_value(req2.headers, authorization_name())),
            sig,
        );
        let req3 = spec_set_header(req2, authorization_name(), text);
        let auth2 = AuthHeaderView { signature: sig, ..auth };
        lemma_signature_ignores_unsigned_header(req2, auth, secret, authorization_name(), text);
        assert(spec_signature(req3, auth2, secret) == spec_signature(req3, auth, secret));
    }
}

} // verus!
