//! Trusted wrappers around the hash, MAC and constant-time-comparison
//! primitives.

use vstd::prelude::*;
use hmac::{Hmac, Mac};
use sha2::{Digest, Sha512};

verus! {

/// What SHA-512 returns: a 64-byte digest, a function of the input alone.
pub uninterp spec fn spec_sha512(m: Seq<u8>) -> Seq<u8>;

/// What HMAC-SHA512 returns: a 64-byte tag, a function of key and message
/// alone.
pub uninterp spec fn spec_hmac_sha512(key: Seq<u8>, m: Seq<u8>) -> Seq<u8>;

/// Relies on `sha2::Sha512`: a deterministic 64-byte digest.
#[verifier::external_body]
pub fn sha512(m: &[u8]) -> (r: Vec<u8>)
    ensures
        r@ == spec_sha512(m@),
        r@.len() == 64,
{
    Sha512::digest(m).to_vec()
}

/// Relies on `hmac::Hmac<Sha512>`: accepts keys of any length and returns a
/// deterministic 64-byte tag.
#[verifier::external_body]
pub fn hmac_sha512(key: &[u8], m: &[u8]) -> (r: Vec<u8>)
    ensures
        r@ == spec_hmac_sha512(key@, m@),
        r@.len() == 64,
{
    let mut mac = <Hmac<Sha512> as Mac>::new_from_slice(key).unwrap();
    mac.update(m);
    mac.finalize().into_bytes().to_vec()
}

/// Relies on `subtle::ConstantTimeEq` for byte slices: a constant-time
/// equality test; slices of unequal length compare unequal.
#[verifier::external_body]
pub fn ct_eq(a: &[u8], b: &[u8]) -> (r: bool)
    ensures
        r == (a@ == b@),
{
    bool::from(subtle::ConstantTimeEq::ct_eq(a, b))
}

} // verus!
