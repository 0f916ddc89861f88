use sigv4_proxy::auth::get_aws_auth_header;
use sigv4_proxy::canonical::{get_canonical_request, HttpRequestData};
use sigv4_proxy::crypto::{constant_time_eq, hex_encode};
use sigv4_proxy::engine::{generate_sig_v4, verify_signature};

fn b(s: &str) -> Vec<u8> {
    s.as_bytes().to_vec()
}

fn vector_request() -> HttpRequestData {
    HttpRequestData {
        method: b("GET"),
        path: b("/"),
        query: None,
        headers: vec![
            (b("host"), b("example.amazonaws.com")),
            (b("x-amz-date"), b("20150830T123600Z")),
            (
                b("x-amz-content-sha256"),
                b("e3b0c44298fc1c149afbf4c8996fb92427ae41e4649b934ca495991b7852b855"),
            ),
        ],
    }
}

const VECTOR_AUTH: &str = "AWS4-HMAC-SHA256 Credential=AKIDEXAMPLE/20150830/us-east-1/service/aws4_request, SignedHeaders=host;x-amz-date, Signature=ea21d6f05e96a897f6000a1a293f0a5bf0f92a00343409e820dce329ca6365ea";

const VECTOR_SECRET: &str = "AWS4wJalrXUtnFEMI/K7MDENG/bPxRfiCYEXAMPLEKEY";

#[test]
fn test_aws_test_vector_signature() {
    // The classic SigV4 example request (GET /, host and date signed, the
    // well-known example key id and secret, scope
    // 20150830/us-east-1/service/aws4_request). The expected value was
    // computed independently of this library from the documented algorithm.
    let req = vector_request();
    let auth_text = b(VECTOR_AUTH);
    let auth = get_aws_auth_header(Some(&auth_text)).unwrap();
    let sig = generate_sig_v4(&req, &auth, VECTOR_SECRET.as_bytes()).unwrap();
    assert_eq!(
        String::from_utf8(sig).unwrap(),
        "ea21d6f05e96a897f6000a1a293f0a5bf0f92a00343409e820dce329ca6365ea"
    );
}

#[test]
fn test_sign_deterministic() {
    let req = vector_request();
    let auth_text = b(VECTOR_AUTH);
    let auth = get_aws_auth_header(Some(&auth_text)).unwrap();
    let s1 = generate_sig_v4(&req, &auth, VECTOR_SECRET.as_bytes()).unwrap();
    let s2 = generate_sig_v4(&req, &auth, VECTOR_SECRET.as_bytes()).unwrap();
    assert_eq!(s1, s2);
}

#[test]
fn test_bit_flip_changes_signature() {
    let base = vector_request();
    let auth_text = b(VECTOR_AUTH);
    let auth = get_aws_auth_header(Some(&auth_text)).unwrap();
    let secret = VECTOR_SECRET.as_bytes();
    let good = generate_sig_v4(&base, &auth, secret).unwrap();

    // Flip one bit in a signed header's value.
    let mut r = vector_request();
    r.headers[0].1[0] ^= 1;
    assert_ne!(generate_sig_v4(&r, &auth, secret).unwrap(), good);

    // Flip one bit in the path.
    let mut r = vector_request();
    r.path[0] ^= 1;
    assert_ne!(generate_sig_v4(&r, &auth, secret).unwrap(), good);

    // Change the query string.
    let mut r = vector_request();
    r.query = Some(b("a=1"));
    assert_ne!(generate_sig_v4(&r, &auth, secret).unwrap(), good);

    // Flip one bit in the date.
    let mut r = vector_request();
    r.headers[1].1[0] ^= 1;
    assert_ne!(generate_sig_v4(&r, &auth, secret).unwrap(), good);
}

#[test]
fn test_verification_soundness() {
    let req = vector_request();
    let auth_text = b(VECTOR_AUTH);
    let auth = get_aws_auth_header(Some(&auth_text)).unwrap();
    let computed = generate_sig_v4(&req, &auth, VECTOR_SECRET.as_bytes()).unwrap();
    assert!(verify_signature(&auth.signature, &computed));
}

#[test]
fn test_verify_fail_closed() {
    // Equal inputs are accepted, differing ones never are; the empty string
    // edge cases guard against an always-equal comparison.
    assert!(verify_signature(b"", b""));
    assert!(!verify_signature(b"", b"a"));
    assert!(!verify_signature(b"a", b""));
    assert!(!verify_signature(b"abc", b"abd"));
    assert!(!verify_signature(b"abc", b"abcd"));
    assert!(verify_signature(b"abc", b"abc"));
    assert!(constant_time_eq(b"", b""));
    assert!(!constant_time_eq(b"xyz", b"xya"));
}

#[test]
fn test_header_order_independence() {
    let r1 = vector_request();
    let mut r2 = vector_request();
    r2.headers.reverse();
    let auth_text = b(VECTOR_AUTH);
    let auth = get_aws_auth_header(Some(&auth_text)).unwrap();
    let c1 = get_canonical_request(&r1, &auth);
    let c2 = get_canonical_request(&r2, &auth);
    assert_eq!(c1, c2);
}

#[test]
fn test_canonical_request_layout() {
    let req = vector_request();
    let auth_text = b(VECTOR_AUTH);
    let auth = get_aws_auth_header(Some(&auth_text)).unwrap();
    let canonical = get_canonical_request(&req, &auth);
    let expected = "GET\n/\n\nhost:example.amazonaws.com\nx-amz-date:20150830T123600Z\n\nhost;x-amz-date\ne3b0c44298fc1c149afbf4c8996fb92427ae41e4649b934ca495991b7852b855";
    assert_eq!(String::from_utf8(canonical).unwrap(), expected);
}

#[test]
fn test_canonical_request_unsigned_payload() {
    let mut req = vector_request();
    req.headers.truncate(2);
    req.query = Some(b("k=v&x=y"));
    let auth_text = b(VECTOR_AUTH);
    let auth = get_aws_auth_header(Some(&auth_text)).unwrap();
    let canonical = get_canonical_request(&req, &auth);
    let expected = "GET\n/\nk=v&x=y\nhost:example.amazonaws.com\nx-amz-date:20150830T123600Z\n\nhost;x-amz-date\nUNSIGNED-PAYLOAD";
    assert_eq!(String::from_utf8(canonical).unwrap(), expected);
}

#[test]
fn test_missing_date_is_rejected() {
    let mut req = vector_request();
    req.headers.remove(1);
    let auth_text = b(VECTOR_AUTH);
    let auth = get_aws_auth_header(Some(&auth_text)).unwrap();
    let r = generate_sig_v4(&req, &auth, VECTOR_SECRET.as_bytes());
    assert!(r.is_err());
}

#[test]
fn test_hex_encode() {
    assert_eq!(hex_encode(&[]).len(), 0);
    assert_eq!(hex_encode(&[0x00, 0xff, 0x1a, 0x9c]), b"00ff1a9c".to_vec());
}
