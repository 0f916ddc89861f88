//! Cryptographic primitives: HMAC-SHA256 and SHA-256 through outside crates,
//! a verified lowercase-hex encoder, and a constant-time byte comparison.
use vstd::prelude::*;
use hmac::Mac;
use sha2::Digest;

verus! {

/// The HMAC-SHA256 of `data` under `key`.
pub uninterp spec fn hmac_sha256(key: Seq<u8>, data: Seq<u8>) -> Seq<u8>;

/// The SHA-256 digest of `data`.
pub uninterp spec fn sha256_digest(data: Seq<u8>) -> Seq<u8>;

/// Relies on hmac::Hmac over sha2::Sha256: the MAC is a function of the key
/// and the message alone, every key length is accepted, and the output is the
/// 32-byte SHA-256 block.
#[verifier::external_body]
fn hmac_sha256_call(key: &[u8], data: &[u8]) -> (r: Vec<u8>)
    ensures
        r@ == hmac_sha256(key@, data@),
        r@.len() == 32,
{
    let mut mac = <hmac::Hmac<sha2::Sha256> as hmac::Mac>::new_from_slice(key)
        .expect("HMAC can take key of any size");
    mac.update(data);
    mac.finalize().into_bytes().to_vec()
}

/// The HMAC-SHA256 of `data` under `key`, as a 32-byte vector.
pub fn get_hmac(key: &[u8], data: &[u8]) -> (r: Vec<u8>)
    ensures
        r@ == hmac_sha256(key@, data@),
        r@.len() == 32,
{
    hmac_sha256_call(key, data)
}

/// Relies on sha2::Sha256: the digest is a function of the input alone and
/// is 32 bytes long.
#[verifier::external_body]
fn sha256_call(data: &[u8]) -> (r: Vec<u8>)
    ensures
        r@ == sha256_digest(data@),
        r@.len() == 32,
{
    let mut hasher = sha2::Sha256::new();
    hasher.update(data);
    hasher.finalize().to_vec()
}

/// The SHA-256 digest of `data`, as a 32-byte vector.
pub fn get_sha256(data: &[u8]) -> (r: Vec<u8>)
    ensures
        r@ == sha256_digest(data@),
        r@.len() == 32,
{
    sha256_call(data)
}

/// The ASCII code of the lowercase hex digit for `n`.
pub open spec fn hex_digit(n: u8) -> u8 {
    if n < 10 {
        (48 + n) as u8
    } else {
        (87 + n) as u8
    }
}

/// The lowercase hex encoding of `b`: two digits per byte, high nibble first.
pub open spec fn hex_of(b: Seq<u8>) -> Seq<u8>
    decreases b.len(),
{
    if b.len() == 0 {
        Seq::<u8>::empty()
    } else {
        hex_of(b.drop_last()) + seq![hex_digit(b.last() / 16), hex_digit(b.last() % 16)]
    }
}

/// The lowercase hex encoding of `b`, two ASCII digits per input byte.
pub fn hex_encode(b: &[u8]) -> (r: Vec<u8>)
    ensures
        r@ == hex_of(b@),
        r@.len() == 2 * b@.len(),
{
    let mut r: Vec<u8> = Vec::new();
    let mut i: usize = 0;
    proof {
        lemma_hex_of_len(b@.take(0));
    }
    while i < b.len()
        invariant
            0 <= i <= b@.len(),
            r@ == hex_of(b@.take(i as int)),
            r@.len() == 2 * i,
        decreases b@.len() - i,
    {
        let byte = b[i];
        let hi = byte / 16;
        let lo = byte % 16;
        if hi < 10 {
            r.push(48 + hi);
        } else {
            r.push(87 + hi);
        }
        if lo < 10 {
            r.push(48 + lo);
        } else {
            r.push(87 + lo);
        }
        i += 1;
        proof {
            assert(b@.take(i as int).drop_last() =~= b@.take(i - 1));
            assert(r@ =~= hex_of(b@.take(i as int)));
        }
    }
    proof {
        assert(b@.take(b@.len() as int) =~= b@);
    }
    r
}

pub proof fn lemma_hex_of_len(b: Seq<u8>)
    ensures
        hex_of(b).len() == 2 * b.len(),
    decreases b.len(),
{
    if b.len() > 0 {
        lemma_hex_of_len(b.drop_last());
    }
}

/// Whether `a` and `b` hold the same bytes, compared without short-circuiting
/// on the first mismatch: every byte of equal-length inputs is examined, so
/// the time taken does not reveal where the first difference lies.
pub fn constant_time_eq(a: &[u8], b: &[u8]) -> (r: bool)
    ensures
        r == (a@ == b@),
{
    if a.len() != b.len() {
        return false;
    }
    let mut diff: u8 = 0;
    let mut i: usize = 0;
    while i < a.len()
        invariant
            a@.len() == b@.len(),
            0 <= i <= a@.len(),
            (diff == 0) <==> (forall|j: int| 0 <= j < i ==> a@[j] == b@[j]),
        decreases a@.len() - i,
    {
        let x = a[i];
        let y = b[i];
        proof {
            assert(((x ^ y) == 0) == (x == y)) by (bit_vector);
            assert(((diff | (x ^ y)) == 0) == (diff == 0 && (x ^ y) == 0)) by (bit_vector);
        }
        diff = diff | (x ^ y);
        i += 1;
    }
    proof {
        if diff == 0 {
            assert(a@ =~= b@);
        }
    }
    diff == 0
}

} // verus!
