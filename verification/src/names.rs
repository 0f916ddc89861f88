//! The fixed byte strings of the SigV4 protocol: the algorithm tag, the scope
//! terminator, header names and the parameter prefixes of the Authorization
//! header. Each constant exists as a spec sequence and as an executable
//! vector proved equal to it.
use vstd::prelude::*;
use crate::bytes::copy_bytes;

verus! {

/// "AWS4-HMAC-SHA256"
pub open spec fn algorithm_tag() -> Seq<u8> {
    seq![65u8, 87u8, 83u8, 52u8, 45u8, 72u8, 77u8, 65u8, 67u8, 45u8, 83u8, 72u8, 65u8, 50u8, 53u8, 54u8]
}

pub fn algorithm_tag_vec() -> (r: Vec<u8>)
    ensures
        r@ == algorithm_tag(),
{
    let a: [u8; 16] = [65, 87, 83, 52, 45, 72, 77, 65, 67, 45, 83, 72, 65, 50, 53, 54];
    let r = copy_bytes(a.as_slice());
    proof {
        assert(r@ =~= algorithm_tag());
    }
    r
}

/// "aws4_request"
pub open spec fn aws4_request_tag() -> Seq<u8> {
    seq![97u8, 119u8, 115u8, 52u8, 95u8, 114u8, 101u8, 113u8, 117u8, 101u8, 115u8, 116u8]
}

pub fn aws4_request_tag_vec() -> (r: Vec<u8>)
    ensures
        r@ == aws4_request_tag(),
{
    let a: [u8; 12] = [97, 119, 115, 52, 95, 114, 101, 113, 117, 101, 115, 116];
    let r = copy_bytes(a.as_slice());
    proof {
        assert(r@ =~= aws4_request_tag());
    }
    r
}

/// "UNSIGNED-PAYLOAD"
pub open spec fn unsigned_payload_tag() -> Seq<u8> {
    seq![85u8, 78u8, 83u8, 73u8, 71u8, 78u8, 69u8, 68u8, 45u8, 80u8, 65u8, 89u8, 76u8, 79u8, 65u8, 68u8]
}

pub fn unsigned_payload_tag_vec() -> (r: Vec<u8>)
    ensures
        r@ == unsigned_payload_tag(),
{
    let a: [u8; 16] = [85, 78, 83, 73, 71, 78, 69, 68, 45, 80, 65, 89, 76, 79, 65, 68];
    let r = copy_bytes(a.as_slice());
    proof {
        assert(r@ =~= unsigned_payload_tag());
    }
    r
}

/// "SignedHeaders="
pub open spec fn signed_headers_param() -> Seq<u8> {
    seq![83u8, 105u8, 103u8, 110u8, 101u8, 100u8, 72u8, 101u8, 97u8, 100u8, 101u8, 114u8, 115u8, 61u8]
}

pub fn signed_headers_param_vec() -> (r: Vec<u8>)
    ensures
        r@ == signed_headers_param(),
{
    let a: [u8; 14] = [83, 105, 103, 110, 101, 100, 72, 101, 97, 100, 101, 114, 115, 61];
    let r = copy_bytes(a.as_slice());
    proof {
        assert(r@ =~= signed_headers_param());
    }
    r
}

/// "Credential="
pub open spec fn credential_param() -> Seq<u8> {
    seq![67u8, 114u8, 101u8, 100u8, 101u8, 110u8, 116u8, 105u8, 97u8, 108u8, 61u8]
}

pub fn credential_param_vec() -> (r: Vec<u8>)
    ensures
        r@ == credential_param(),
{
    let a: [u8; 11] = [67, 114, 101, 100, 101, 110, 116, 105, 97, 108, 61];
    let r = copy_bytes(a.as_slice());
    proof {
        assert(r@ =~= credential_param());
    }
    r
}

/// "Signature="
pub open spec fn signature_param() -> Seq<u8> {
    seq![83u8, 105u8, 103u8, 110u8, 97u8, 116u8, 117u8, 114u8, 101u8, 61u8]
}

pub fn signature_param_vec() -> (r: Vec<u8>)
    ensures
        r@ == signature_param(),
{
    let a: [u8; 10] = [83, 105, 103, 110, 97, 116, 117, 114, 101, 61];
    let r = copy_bytes(a.as_slice());
    proof {
        assert(r@ =~= signature_param());
    }
    r
}

/// "Signature" (the bare word, as the provided-signature scan matches it)
pub open spec fn signature_word() -> Seq<u8> {
    seq![83u8, 105u8, 103u8, 110u8, 97u8, 116u8, 117u8, 114u8, 101u8]
}

pub fn signature_word_vec() -> (r: Vec<u8>)
    ensures
        r@ == signature_word(),
{
    let a: [u8; 9] = [83, 105, 103, 110, 97, 116, 117, 114, 101];
    let r = copy_bytes(a.as_slice());
    proof {
        assert(r@ =~= signature_word());
    }
    r
}

/// "x-amz-content-sha256"
pub open spec fn content_sha256_name() -> Seq<u8> {
    seq![120u8, 45u8, 97u8, 109u8, 122u8, 45u8, 99u8, 111u8, 110u8, 116u8, 101u8, 110u8, 116u8, 45u8, 115u8, 104u8, 97u8, 50u8, 53u8, 54u8]
}

pub fn content_sha256_name_vec() -> (r: Vec<u8>)
    ensures
        r@ == content_sha256_name(),
{
    let a: [u8; 20] = [
        120, 45, 97, 109, 122, 45, 99, 111, 110, 116, 101, 110, 116, 45, 115, 104, 97, 50, 53, 54,
    ];
    let r = copy_bytes(a.as_slice());
    proof {
        assert(r@ =~= content_sha256_name());
    }
    r
}

/// "x-amz-date"
pub open spec fn x_amz_date_name() -> Seq<u8> {
    seq![120u8, 45u8, 97u8, 109u8, 122u8, 45u8, 100u8, 97u8, 116u8, 101u8]
}

pub fn x_amz_date_name_vec() -> (r: Vec<u8>)
    ensures
        r@ == x_amz_date_name(),
{
    let a: [u8; 10] = [120, 45, 97, 109, 122, 45, 100, 97, 116, 101];
    let r = copy_bytes(a.as_slice());
    proof {
        assert(r@ =~= x_amz_date_name());
    }
    r
}

/// "host"
pub open spec fn host_name() -> Seq<u8> {
    seq![104u8, 111u8, 115u8, 116u8]
}

pub fn host_name_vec() -> (r: Vec<u8>)
    ensures
        r@ == host_name(),
{
    let a: [u8; 4] = [104, 111, 115, 116];
    let r = copy_bytes(a.as_slice());
    proof {
        assert(r@ =~= host_name());
    }
    r
}

/// "authorization"
pub open spec fn authorization_name() -> Seq<u8> {
    seq![97u8, 117u8, 116u8, 104u8, 111u8, 114u8, 105u8, 122u8, 97u8, 116u8, 105u8, 111u8, 110u8]
}

pub fn authorization_name_vec() -> (r: Vec<u8>)
    ensures
        r@ == authorization_name(),
{
    let a: [u8; 13] = [97, 117, 116, 104, 111, 114, 105, 122, 97, 116, 105, 111, 110];
    let r = copy_bytes(a.as_slice());
    proof {
        assert(r@ =~= authorization_name());
    }
    r
}

/// ", " (the separator of the provided-signature scan)
pub open spec fn comma_space_sep() -> Seq<u8> {
    seq![44u8, 32u8]
}

pub fn comma_space_sep_vec() -> (r: Vec<u8>)
    ensures
        r@ == comma_space_sep(),
{
    let a: [u8; 2] = [44, 32];
    let r = copy_bytes(a.as_slice());
    proof {
        assert(r@ =~= comma_space_sep());
    }
    r
}

} // verus!
