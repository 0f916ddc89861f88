use sigv4_proxy::auth::get_aws_auth_header;
use sigv4_proxy::canonical::{get_header, HttpRequestData};
use sigv4_proxy::engine::{generate_sig_v4, verify_signature};
use sigv4_proxy::errors::AppError;
use sigv4_proxy::pipeline::process_request;
use sigv4_proxy::rewrite::{replace_signature_value, resign_request, set_header};

fn b(s: &str) -> Vec<u8> {
    s.as_bytes().to_vec()
}

const SECRET: &str = "AWS4wJalrXUtnFEMI/K7MDENG/bPxRfiCYEXAMPLEKEY";

/// A request for host A whose Authorization header carries the signature
/// computed over the request itself.
fn signed_request() -> HttpRequestData {
    let mut req = HttpRequestData {
        method: b("GET"),
        path: b("/"),
        query: None,
        headers: vec![
            (b("host"), b("example.amazonaws.com")),
            (b("x-amz-date"), b("20150830T123600Z")),
        ],
    };
    let skeleton = b(
        "AWS4-HMAC-SHA256 Credential=AKIDEXAMPLE/20150830/us-east-1/service/aws4_request, SignedHeaders=host;x-amz-date, Signature=tofill",
    );
    let auth = get_aws_auth_header(Some(&skeleton)).unwrap();
    let sig = generate_sig_v4(&req, &auth, SECRET.as_bytes()).unwrap();
    let text = replace_signature_value(&skeleton, &sig);
    req.headers.push((b("authorization"), text));
    req
}

#[test]
fn test_replace_signature_value() {
    let text = b("Credential=a/b, SignedHeaders=host, Signature=oldvalue");
    let out = replace_signature_value(&text, b"newvalue");
    assert_eq!(
        String::from_utf8(out).unwrap(),
        "Credential=a/b, SignedHeaders=host, Signature=newvalue"
    );
}

#[test]
fn test_replace_signature_value_keeps_rest() {
    // Only the value runs after `Signature=` change; `Credential=` and
    // `SignedHeaders=` stay untouched, and every occurrence is replaced.
    let text = b("Signature=x, Credential=c, Signature=y");
    let out = replace_signature_value(&text, b"z");
    assert_eq!(String::from_utf8(out).unwrap(), "Signature=z, Credential=c, Signature=z");
}

#[test]
fn test_replace_signature_no_match() {
    let text = b("Credential=a, SignedHeaders=h, Signature=");
    let out = replace_signature_value(&text, b"z");
    assert_eq!(out, text);
}

#[test]
fn test_set_header() {
    let mut req = HttpRequestData {
        method: b("GET"),
        path: b("/"),
        query: None,
        headers: vec![(b("host"), b("a.example")), (b("x-amz-date"), b("20150830T123600Z"))],
    };
    set_header(&mut req, b"host", b"b.example");
    assert_eq!(get_header(&req, b"host"), Some(b("b.example")));
    assert_eq!(get_header(&req, b"x-amz-date"), Some(b("20150830T123600Z")));
    assert_eq!(req.headers.iter().filter(|p| p.0 == b("host")).count(), 1);
}

#[test]
fn test_resign_for_new_host() {
    // A request signed for host A, rewritten to target host B with `host`
    // among the signed headers: the re-signed header verifies against the
    // rewritten request.
    let mut req = signed_request();
    let auth_text = get_header(&req, b"authorization").unwrap();
    let auth = get_aws_auth_header(Some(&auth_text)).unwrap();
    let old_sig = auth.signature.clone();
    let new_auth = resign_request(&mut req, &auth, SECRET.as_bytes(), b"other.example.net").unwrap();
    assert_eq!(get_header(&req, b"host"), Some(b("other.example.net")));
    assert_ne!(new_auth.signature, old_sig);

    // The forwarded request's Authorization text carries the new signature,
    // and a downstream verifier recomputing from the rewritten request agrees.
    let fwd_text = get_header(&req, b"authorization").unwrap();
    let fwd_auth = get_aws_auth_header(Some(&fwd_text)).unwrap();
    assert_eq!(fwd_auth.signature, new_auth.signature);
    assert_eq!(fwd_auth.credential.key_id, b("AKIDEXAMPLE"));
    assert_eq!(fwd_auth.signed_headers, vec![b("host"), b("x-amz-date")]);
    let recomputed = generate_sig_v4(&req, &fwd_auth, SECRET.as_bytes()).unwrap();
    assert!(verify_signature(&fwd_auth.signature, &recomputed));
}

#[test]
fn test_resign_unsigned_host_changes_nothing_else() {
    let mut req = HttpRequestData {
        method: b("GET"),
        path: b("/"),
        query: None,
        headers: vec![
            (b("host"), b("a.example")),
            (b("x-amz-date"), b("20150830T123600Z")),
            (b("authorization"), b("AWS4-HMAC-SHA256 SignedHeaders=x-amz-date, Signature=s")),
        ],
    };
    let auth_text = get_header(&req, b"authorization").unwrap();
    let auth = get_aws_auth_header(Some(&auth_text)).unwrap();
    let new_auth = resign_request(&mut req, &auth, SECRET.as_bytes(), b"b.example").unwrap();
    assert_eq!(get_header(&req, b"host"), Some(b("b.example")));
    assert_eq!(new_auth.signature, b("s"));
    assert_eq!(get_header(&req, b"authorization"), Some(auth_text));
}

#[test]
fn test_process_request_accepts_and_rewrites() {
    let mut req = signed_request();
    let secret = b(SECRET);
    let r = process_request(&mut req, Some(&secret), b"upstream.example");
    let new_auth = r.unwrap();
    assert_eq!(get_header(&req, b"host"), Some(b("upstream.example")));
    let recomputed = generate_sig_v4(&req, &new_auth, SECRET.as_bytes()).unwrap();
    assert_eq!(new_auth.signature, recomputed);
}

#[test]
fn test_process_request_rejects_bad_signature() {
    let mut req = signed_request();
    // Corrupt one signed header value after signing.
    req.headers[1].1[0] ^= 1;
    let secret = b(SECRET);
    let before = req.headers.clone();
    let r = process_request(&mut req, Some(&secret), b"upstream.example");
    assert_eq!(r.err(), Some(AppError::SignatureMismatch));
    assert_eq!(req.headers, before);
}

#[test]
fn test_process_request_unknown_credential() {
    let mut req = signed_request();
    let r = process_request(&mut req, None, b"upstream.example");
    assert_eq!(r.err(), Some(AppError::UnknownCredential));
}

#[test]
fn test_process_request_missing_auth_header() {
    let mut req = HttpRequestData {
        method: b("GET"),
        path: b("/"),
        query: None,
        headers: vec![(b("host"), b("a.example"))],
    };
    let secret = b(SECRET);
    let r = process_request(&mut req, Some(&secret), b"upstream.example");
    assert_eq!(r.err(), Some(AppError::ParseError));
}
