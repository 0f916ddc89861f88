use sigv4_proxy::auth::{extract_provided_signature, get_aws_auth_header};
use sigv4_proxy::errors::AppError;

fn b(s: &str) -> Vec<u8> {
    s.as_bytes().to_vec()
}

#[test]
fn test_parse_auth_header() {
    let text = b(
        "AWS4-HMAC-SHA256 Credential=AKIDEXAMPLE/20150830/us-east-1/service/aws4_request, SignedHeaders=host;x-amz-date, Signature=abc123",
    );
    let a = get_aws_auth_header(Some(&text)).unwrap();
    assert_eq!(a.credential.key_id, b("AKIDEXAMPLE"));
    assert_eq!(a.credential.date, b("20150830"));
    assert_eq!(a.credential.region, b("us-east-1"));
    assert_eq!(a.credential.service, b("service"));
    assert_eq!(a.credential.request, b("aws4_request"));
    assert_eq!(a.signed_headers, vec![b("host"), b("x-amz-date")]);
    assert_eq!(a.signature, b("abc123"));
}

#[test]
fn test_parse_missing_header() {
    let r = get_aws_auth_header(None);
    assert!(matches!(r, Err(AppError::ParseError)));
}

#[test]
fn test_parse_signed_headers_with_commas() {
    // A comma-separated signed-header list is normalized to semicolons.
    let text = b("AWS4-HMAC-SHA256 SignedHeaders=host,x-amz-date, Signature=s");
    let a = get_aws_auth_header(Some(&text)).unwrap();
    assert_eq!(a.signed_headers, vec![b("host"), b("x-amz-date")]);
}

#[test]
fn test_parse_short_credential_leaves_fields_empty() {
    // Fewer than five scope parts: the credential stays empty; no hard error.
    let text = b("AWS4-HMAC-SHA256 Credential=AKID/20150830, Signature=s");
    let a = get_aws_auth_header(Some(&text)).unwrap();
    assert_eq!(a.credential.key_id, b(""));
    assert_eq!(a.credential.date, b(""));
    assert_eq!(a.signature, b("s"));
}

#[test]
fn test_parse_empty_header_value() {
    let text = b("");
    let a = get_aws_auth_header(Some(&text)).unwrap();
    assert!(a.signed_headers.iter().all(|h| h.is_empty()));
    assert_eq!(a.signature, b(""));
    assert_eq!(a.credential.key_id, b(""));
}

#[test]
fn test_extract_provided_signature() {
    let text = b(
        "AWS4-HMAC-SHA256 Credential=AKIDEXAMPLE/20150830/us-east-1/service/aws4_request, SignedHeaders=host, Signature=deadbeef",
    );
    let r = extract_provided_signature(Some(&text));
    assert_eq!(r, Some(b("deadbeef")));
}

#[test]
fn test_extract_provided_signature_absent() {
    assert_eq!(extract_provided_signature(None), None);
    let text = b("AWS4-HMAC-SHA256 Credential=x, SignedHeaders=host");
    assert_eq!(extract_provided_signature(Some(&text)), None);
}

#[test]
fn test_extract_signature_token_without_equals() {
    // A piece that starts with the bare word but has no `=` yields nothing.
    let text = b("AWS4-HMAC-SHA256 x, SignatureOnly");
    assert_eq!(extract_provided_signature(Some(&text)), None);
}
