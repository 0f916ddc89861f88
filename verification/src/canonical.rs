//! The request model and the canonical request: the deterministic
//! serialization of the signed parts of a request.
use vstd::prelude::*;
use crate::auth::AWSAuthHeader;
use crate::bytes::{bytes_eq, copy_bytes, join_bytes, join_with};
use crate::names::{content_sha256_name, content_sha256_name_vec, unsigned_payload_tag,
    unsigned_payload_tag_vec};

verus! {

/// The plain parts of an HTTP request that signing reads: method, path, raw
/// query, and the headers as name/value pairs with lowercase names.
pub struct HttpRequestData {
    pub method: Vec<u8>,
    pub path: Vec<u8>,
    pub query: Option<Vec<u8>>,
    pub headers: Vec<(Vec<u8>, Vec<u8>)>,
}

#[verifier::ext_equal]
pub ghost struct RequestView {
    pub method: Seq<u8>,
    pub path: Seq<u8>,
    pub query: Option<Seq<u8>>,
    pub headers: Seq<(Seq<u8>, Seq<u8>)>,
}

impl View for HttpRequestData {
    type V = RequestView;

    open spec fn view(&self) -> RequestView {
        RequestView {
            method: self.method@,
            path: self.path@,
            query: match self.query {
                Some(q) => Some(q@),
                None => None,
            },
            headers: self.headers@.map_values(|p: (Vec<u8>, Vec<u8>)| (p.0@, p.1@)),
        }
    }
}

/// The value of the first header named `name`, if any.
pub open spec fn header_value(headers: Seq<(Seq<u8>, Seq<u8>)>, name: Seq<u8>) -> Option<Seq<u8>>
    decreases headers.len(),
{
    if headers.len() == 0 {
        None
    } else if headers[0].0 == name {
        Some(headers[0].1)
    } else {
        header_value(headers.drop_first(), name)
    }
}

pub open spec fn opt_or_empty(o: Option<Seq<u8>>) -> Seq<u8> {
    match o {
        Some(s) => s,
        None => Seq::<u8>::empty(),
    }
}

/// Looks a header up by exact name, returning a copy of its value.
pub fn get_header(req: &HttpRequestData, name: &[u8]) -> (r: Option<Vec<u8>>)
    ensures
        match r {
            Some(v) => header_value(req@.headers, name@) == Some(v@),
            None => header_value(req@.headers, name@) is None,
        },
{
    let ghost hs = req@.headers;
    let mut i: usize = 0;
    proof {
        assert(hs.skip(0) =~= hs);
    }
    while i < req.headers.len()
        invariant
            0 <= i <= req.headers@.len(),
            hs == req@.headers,
            header_value(hs, name@) == header_value(hs.skip(i as int), name@),
        decreases req.headers@.len() - i,
    {
        proof {
            assert(hs.skip(i as int)[0] == hs[i as int]);
        }
        if bytes_eq(req.headers[i].0.as_slice(), name) {
            return Some(copy_bytes(req.headers[i].1.as_slice()));
        }
        proof {
            assert(hs.skip(i as int).drop_first() =~= hs.skip(i + 1));
        }
        i += 1;
    }
    proof {
        assert(hs.skip(i as int) =~= Seq::<(Seq<u8>, Seq<u8>)>::empty());
    }
    None
}

/// The canonical headers block: for each signed name, in the signed list's
/// order, `name:value` and a newline; an absent header contributes an empty
/// value.
pub open spec fn canonical_header_lines(
    headers: Seq<(Seq<u8>, Seq<u8>)>,
    signed: Seq<Seq<u8>>,
) -> Seq<u8>
    decreases signed.len(),
{
    if signed.len() == 0 {
        Seq::<u8>::empty()
    } else {
        canonical_header_lines(headers, signed.drop_last()) + signed.last() + seq![58u8]
            + opt_or_empty(header_value(headers, signed.last())) + seq![10u8]
    }
}

/// The payload-hash marker: the `x-amz-content-sha256` header value if
/// present, else the literal `UNSIGNED-PAYLOAD`.
pub open spec fn payload_marker(headers: Seq<(Seq<u8>, Seq<u8>)>) -> Seq<u8> {
    match header_value(headers, content_sha256_name()) {
        Some(v) => v,
        None => unsigned_payload_tag(),
    }
}

/// The canonical request: method, path, raw query, the canonical headers
/// block, a blank line, the signed names joined with `;`, and the
/// payload-hash marker, newline-joined in that exact order.
pub open spec fn spec_canonical_request(req: RequestView, signed: Seq<Seq<u8>>) -> Seq<u8> {
    req.method + seq![10u8] + req.path + seq![10u8] + opt_or_empty(req.query) + seq![10u8]
        + canonical_header_lines(req.headers, signed) + seq![10u8] + join_with(signed, 59u8)
        + seq![10u8] + payload_marker(req.headers)
}

/// Builds the canonical request for `req` over the auth header's signed-name
/// list.
pub fn get_canonical_request(req: &HttpRequestData, auth_header: &AWSAuthHeader) -> (r: Vec<u8>)
    ensures
        r@ == spec_canonical_request(req@, auth_header@.signed_headers),
{
    let ghost signed = auth_header@.signed_headers;
    let mut out: Vec<u8> = Vec::new();
    out.extend_from_slice(req.method.as_slice());
    out.push(10u8);
    out.extend_from_slice(req.path.as_slice());
    out.push(10u8);
    match &req.query {
        Some(q) => {
            out.extend_from_slice(q.as_slice());
        },
        None => {},
    }
    out.push(10u8);
    let ghost head = req@.method + seq![10u8] + req@.path + seq![10u8] + opt_or_empty(req@.query)
        + seq![10u8];
    proof {
        assert(out@ =~= head + canonical_header_lines(req@.headers, signed.take(0)));
    }
    let mut i: usize = 0;
    while i < auth_header.signed_headers.len()
        invariant
            0 <= i <= auth_header.signed_headers@.len(),
            signed == auth_header@.signed_headers,
            head == req@.method + seq![10u8] + req@.path + seq![10u8] + opt_or_empty(req@.query)
                + seq![10u8],
            out@ == head + canonical_header_lines(req@.headers, signed.take(i as int)),
        decreases auth_header.signed_headers@.len() - i,
    {
        out.extend_from_slice(auth_header.signed_headers[i].as_slice());
        out.push(58u8);
        let val = get_header(req, auth_header.signed_headers[i].as_slice());
        match &val {
            Some(v) => {
                out.extend_from_slice(v.as_slice());
            },
            None => {},
        }
        out.push(10u8);
        i += 1;
        proof {
            assert(signed.take(i as int).drop_last() =~= signed.take(i - 1));
            assert(signed.take(i as int).last() == signed[i - 1]);
            assert(signed[i - 1] == auth_header.signed_headers@[i - 1]@);
            assert(out@ =~= head + canonical_header_lines(req@.headers, signed.take(i as int)));
        }
    }
    proof {
        assert(signed.take(signed.len() as int) =~= signed);
    }
    out.push(10u8);
    let joined = join_bytes(&auth_header.signed_headers, 59u8);
    out.extend_from_slice(joined.as_slice());
    out.push(10u8);
    let marker = get_header(req, content_sha256_name_vec().as_slice());
    match &marker {
        Some(v) => {
            out.extend_from_slice(v.as_slice());
        },
        None => {
            let tag = unsigned_payload_tag_vec();
            out.extend_from_slice(tag.as_slice());
        },
    }
    proof {
        assert(out@ =~= spec_canonical_request(req@, signed));
    }
    out
}

/// Law: the canonical request reads the headers only through the value each
/// signed name (and the payload-hash name) resolves to — two requests whose
/// header lists give the same values for those names, in whatever physical
/// order the headers arrive, canonicalize identically.
pub proof fn lemma_canonical_request_header_order_independent(
    r1: RequestView,
    r2: RequestView,
    signed: Seq<Seq<u8>>,
)
    requires
        r1.method == r2.method,
        r1.path == r2.path,
        r1.query == r2.query,
        forall|j: int|
            0 <= j < signed.len() ==> header_value(r1.headers, #[trigger] signed[j])
                == header_value(r2.headers, signed[j]),
        header_value(r1.headers, content_sha256_name()) == header_value(
            r2.headers,
            content_sha256_name(),
        ),
    ensures
        spec_canonical_request(r1, signed) == spec_canonical_request(r2, signed),
{
    lemma_canonical_header_lines_value_dependent(r1.headers, r2.headers, signed);
}

pub proof fn lemma_canonical_header_lines_value_dependent(
    h1: Seq<(Seq<u8>, Seq<u8>)>,
    h2: Seq<(Seq<u8>, Seq<u8>)>,
    signed: Seq<Seq<u8>>,
)
    requires
        forall|j: int|
            0 <= j < signed.len() ==> header_value(h1, #[trigger] signed[j]) == header_value(
                h2,
                signed[j],
            ),
    ensures
        canonical_header_lines(h1, signed) == canonical_header_lines(h2, signed),
    decreases signed.len(),
{
    if signed.len() > 0 {
        assert(forall|j: int|
            0 <= j < signed.drop_last().len() ==> signed.drop_last()[j] == signed[j]);
        lemma_canonical_header_lines_value_dependent(h1, h2, signed.drop_last());
        assert(signed.last() == signed[signed.len() - 1]);
    }
}

} // verus!
