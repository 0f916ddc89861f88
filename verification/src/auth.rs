//! Parsing of the SigV4 Authorization header: the credential scope, the
//! ordered signed-header list and the provided signature.
use vstd::prelude::*;
use crate::bytes::{
    commas_to_semicolons, commas_to_semis, copy_bytes, has_prefix, normalize_whitespace,
    normalize_ws, split_bytes, split_bytes_on, split_on, split_on_seq, starts_with_bytes,
    tail_from, trim_commas, trim_end_commas, views_of,
};
use crate::errors::AppError;
use crate::names::{
    comma_space_sep, comma_space_sep_vec, credential_param, credential_param_vec,
    signature_param, signature_param_vec, signature_word, signature_word_vec,
    signed_headers_param, signed_headers_param_vec,
};

verus! {

/// The five `/`-separated parts of the `Credential=` scope.
pub struct AWSAuthHeaderCredential {
    pub key_id: Vec<u8>,
    pub date: Vec<u8>,
    pub region: Vec<u8>,
    pub service: Vec<u8>,
    pub request: Vec<u8>,
}

#[verifier::ext_equal]
pub ghost struct CredentialView {
    pub key_id: Seq<u8>,
    pub date: Seq<u8>,
    pub region: Seq<u8>,
    pub service: Seq<u8>,
    pub request: Seq<u8>,
}

impl View for AWSAuthHeaderCredential {
    type V = CredentialView;

    open spec fn view(&self) -> CredentialView {
        CredentialView {
            key_id: self.key_id@,
            date: self.date@,
            region: self.region@,
            service: self.service@,
            request: self.request@,
        }
    }
}

/// The parsed Authorization header: credential scope, ordered signed-header
/// names, and the signature the client provided.
pub struct AWSAuthHeader {
    pub credential: AWSAuthHeaderCredential,
    pub signed_headers: Vec<Vec<u8>>,
    pub signature: Vec<u8>,
}

#[verifier::ext_equal]
pub ghost struct AuthHeaderView {
    pub credential: CredentialView,
    pub signed_headers: Seq<Seq<u8>>,
    pub signature: Seq<u8>,
}

impl View for AWSAuthHeader {
    type V = AuthHeaderView;

    open spec fn view(&self) -> AuthHeaderView {
        AuthHeaderView {
            credential: self.credential@,
            signed_headers: views_of(self.signed_headers@),
            signature: self.signature@,
        }
    }
}

pub open spec fn empty_credential() -> CredentialView {
    CredentialView {
        key_id: Seq::<u8>::empty(),
        date: Seq::<u8>::empty(),
        region: Seq::<u8>::empty(),
        service: Seq::<u8>::empty(),
        request: Seq::<u8>::empty(),
    }
}

pub open spec fn empty_auth_header() -> AuthHeaderView {
    AuthHeaderView {
        credential: empty_credential(),
        signed_headers: Seq::<Seq<u8>>::empty(),
        signature: Seq::<u8>::empty(),
    }
}

/// One whitespace-separated token of the Authorization header folded into the
/// parse state: trailing commas are stripped, then a `SignedHeaders=`,
/// `Credential=` or `Signature=` token overwrites its field; a `Credential=`
/// value with fewer than five `/`-parts, and any other token, changes nothing.
pub open spec fn apply_token(st: AuthHeaderView, tok: Seq<u8>) -> AuthHeaderView {
    let t = trim_commas(tok);
    if has_prefix(t, signed_headers_param()) {
        let names = split_on(commas_to_semis(t.skip(signed_headers_param().len() as int)), 59u8);
        AuthHeaderView { signed_headers: names, ..st }
    } else if has_prefix(t, credential_param()) {
        let parts = split_on(t.skip(credential_param().len() as int), 47u8);
        if parts.len() >= 5 {
            AuthHeaderView {
                credential: CredentialView {
                    key_id: parts[0],
                    date: parts[1],
                    region: parts[2],
                    service: parts[3],
                    request: parts[4],
                },
                ..st
            }
        } else {
            st
        }
    } else if has_prefix(t, signature_param()) {
        AuthHeaderView { signature: t.skip(signature_param().len() as int), ..st }
    } else {
        st
    }
}

pub open spec fn parse_auth_tokens(toks: Seq<Seq<u8>>) -> AuthHeaderView
    decreases toks.len(),
{
    if toks.len() == 0 {
        empty_auth_header()
    } else {
        apply_token(parse_auth_tokens(toks.drop_last()), toks.last())
    }
}

/// The parse of a whole Authorization header value: the whitespace-separated
/// tokens folded in order. Pieces between adjacent separators are empty and
/// leave the state unchanged, so this matches a whitespace tokenization.
pub open spec fn spec_parse_auth_header(s: Seq<u8>) -> AuthHeaderView {
    parse_auth_tokens(split_on(normalize_ws(s), 32u8))
}

/// Parses the Authorization header value. A missing header is the one hard
/// failure; malformed or absent tokens merely leave their field empty, and
/// verification downstream rejects the request.
pub fn get_aws_auth_header(header: Option<&Vec<u8>>) -> (r: Result<AWSAuthHeader, AppError>)
    ensures
        match r {
            Ok(a) => header is Some && a@ == spec_parse_auth_header(header->0@),
            Err(e) => header is None && e == AppError::ParseError,
        },
{
    let h = match header {
        Some(h) => h,
        None => {
            return Err(AppError::ParseError);
        },
    };
    let normalized = normalize_whitespace(h.as_slice());
    let pieces = split_bytes(normalized.as_slice(), 32u8);
    let ghost toks = views_of(pieces@);
    let mut auth = AWSAuthHeader {
        credential: AWSAuthHeaderCredential {
            key_id: Vec::new(),
            date: Vec::new(),
            region: Vec::new(),
            service: Vec::new(),
            request: Vec::new(),
        },
        signed_headers: Vec::new(),
        signature: Vec::new(),
    };
    proof {
        assert(views_of(auth.signed_headers@) =~= Seq::<Seq<u8>>::empty());
        assert(auth@ =~~= parse_auth_tokens(toks.take(0)));
    }
    let mut i: usize = 0;
    while i < pieces.len()
        invariant
            0 <= i <= pieces@.len(),
            toks == views_of(pieces@),
            auth@ == parse_auth_tokens(toks.take(i as int)),
        decreases pieces@.len() - i,
    {
        let ghost prev = auth@;
        let t = trim_end_commas(pieces[i].as_slice());
        let shp = signed_headers_param_vec();
        let cp = credential_param_vec();
        let sp = signature_param_vec();
        if starts_with_bytes(t.as_slice(), shp.as_slice()) {
            let val = tail_from(t.as_slice(), shp.len());
            let semis = commas_to_semicolons(val.as_slice());
            let names = split_bytes(semis.as_slice(), 59u8);
            auth.signed_headers = names;
        } else if starts_with_bytes(t.as_slice(), cp.as_slice()) {
            let val = tail_from(t.as_slice(), cp.len());
            let parts = split_bytes(val.as_slice(), 47u8);
            if parts.len() >= 5 {
                auth.credential = AWSAuthHeaderCredential {
                    key_id: copy_bytes(parts[0].as_slice()),
                    date: copy_bytes(parts[1].as_slice()),
                    region: copy_bytes(parts[2].as_slice()),
                    service: copy_bytes(parts[3].as_slice()),
                    request: copy_bytes(parts[4].as_slice()),
                };
            }
        } else if starts_with_bytes(t.as_slice(), sp.as_slice()) {
            auth.signature = tail_from(t.as_slice(), sp.len());
        }
        i += 1;
        proof {
            assert(toks.take(i as int).drop_last() =~= toks.take(i - 1));
            assert(toks.take(i as int).last() == toks[i - 1]);
            assert(auth@ =~~= apply_token(prev, toks[i - 1]));
        }
    }
    proof {
        assert(toks.take(toks.len() as int) =~= toks);
    }
    Ok(auth)
}

/// The provided signature as a direct scan of the header text finds it: the
/// header is split at every ", "; the first piece that starts with the word
/// `Signature` is split at `=`, and the part after the first `=` is the
/// result; a piece without `=` yields nothing.
pub open spec fn extract_sig_from(pieces: Seq<Seq<u8>>) -> Option<Seq<u8>>
    decreases pieces.len(),
{
    if pieces.len() == 0 {
        None
    } else if has_prefix(pieces[0], signature_word()) {
        let parts = split_on(pieces[0], 61u8);
        if parts.len() >= 2 {
            Some(parts[1])
        } else {
            None
        }
    } else {
        extract_sig_from(pieces.drop_first())
    }
}

pub open spec fn spec_extract_provided_signature(s: Seq<u8>) -> Option<Seq<u8>> {
    extract_sig_from(split_on_seq(s, comma_space_sep()))
}

/// Scans the Authorization header value for the provided signature.
pub fn extract_provided_signature(header: Option<&Vec<u8>>) -> (r: Option<Vec<u8>>)
    ensures
        match r {
            Some(v) => header is Some && spec_extract_provided_signature(header->0@) == Some(v@),
            None => match header {
                Some(h) => spec_extract_provided_signature(h@) is None,
                None => true,
            },
        },
{
    let h = match header {
        Some(h) => h,
        None => {
            return None;
        },
    };
    let sep = comma_space_sep_vec();
    let pieces = split_bytes_on(h.as_slice(), sep.as_slice());
    let ghost toks = views_of(pieces@);
    let word = signature_word_vec();
    let mut i: usize = 0;
    proof {
        assert(toks.skip(0) =~= toks);
        assert(toks == split_on_seq(h@, comma_space_sep()));
    }
    while i < pieces.len()
        invariant
            0 <= i <= pieces@.len(),
            toks == views_of(pieces@),
            word@ == signature_word(),
            header == Some(h),
            spec_extract_provided_signature(h@) == extract_sig_from(toks.skip(i as int)),
        decreases pieces@.len() - i,
    {
        proof {
            assert(toks.skip(i as int)[0] == toks[i as int]);
            assert(toks[i as int] == pieces@[i as int]@);
        }
        if starts_with_bytes(pieces[i].as_slice(), word.as_slice()) {
            let parts = split_bytes(pieces[i].as_slice(), 61u8);
            proof {
                let sp = split_on(toks[i as int], 61u8);
                assert(toks.len() == pieces@.len());
                assert(toks.skip(i as int).len() > 0);
                assert(has_prefix(toks.skip(i as int)[0], signature_word()));
                assert(views_of(parts@) == sp);
                assert(extract_sig_from(toks.skip(i as int)) == if sp.len() >= 2 {
                    Some(sp[1])
                } else {
                    None
                });
            }
            if parts.len() >= 2 {
                proof {
                    assert(views_of(parts@)[1] == parts@[1]@);
                }
                return Some(copy_bytes(parts[1].as_slice()));
            } else {
                return None;
            }
        }
        proof {
            assert(toks.skip(i as int).drop_first() =~= toks.skip(i + 1));
        }
        i += 1;
    }
    proof {
        assert(toks.skip(i as int) =~= Seq::<Seq<u8>>::empty());
    }
    None
}

} // verus!
