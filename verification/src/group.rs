//! The Ristretto group seen as operations on 32-byte canonical encodings.
//!
//! Points and scalars live in this crate as plain byte vectors.  Every
//! operation goes through a trusted wrapper around curve25519-dalek, which is
//! assumed correct and constant-time; the wrappers' contracts state what the
//! group guarantees: scalar arithmetic is arithmetic modulo the group order,
//! and scalar multiplication of points obeys the usual group laws.

use vstd::prelude::*;
use crate::bytes::le_val;
use curve25519_dalek::constants::RISTRETTO_BASEPOINT_COMPRESSED;
use curve25519_dalek::ristretto::{CompressedRistretto, RistrettoPoint};
use curve25519_dalek::scalar::Scalar;
use sha2::Sha512;

verus! {

/// The order of the Ristretto group: 2^252 + 27742317777372353535851937790883648493.
pub open spec fn group_order() -> nat {
    vstd::arithmetic::power2::pow2(252) + 27742317777372353535851937790883648493
}

/// The group order is a positive modulus.
pub proof fn lemma_group_order_pos()
    ensures
        group_order() > 1,
{
    vstd::arithmetic::power2::lemma_pow2_pos(252);
}

/// Product of two scalar values, modulo the group order.
pub open spec fn sc_mulv(a: nat, b: nat) -> nat {
    (a * b) % group_order()
}

/// Sum of two scalar values, modulo the group order.
pub open spec fn sc_addv(a: nat, b: nat) -> nat {
    (a + b) % group_order()
}

/// Negation of a scalar value, modulo the group order.
pub open spec fn sc_negv(a: nat) -> nat {
    ((group_order() - a % group_order()) % group_order() as int) as nat
}

/// A 32-byte canonical scalar encoding (value below the group order).
pub open spec fn is_scalar(s: Seq<u8>) -> bool {
    s.len() == 32 && le_val(s) < group_order()
}

/// What decompression of 32 bytes returns: whether they canonically encode a
/// group element.
pub uninterp spec fn is_valid_pt(p: Seq<u8>) -> bool;

/// What scalar multiplication returns: the canonical encoding of the point
/// `k * P`, where `P` is the point encoded by `p`.
pub uninterp spec fn spec_pt_mul(k: nat, p: Seq<u8>) -> Seq<u8>;

/// What point addition returns: the canonical encoding of the sum of the two
/// encoded points.
pub uninterp spec fn spec_pt_add(p: Seq<u8>, q: Seq<u8>) -> Seq<u8>;

/// What hashing to the group returns: the canonical encoding of the group
/// element that the byte string maps to.
pub uninterp spec fn spec_h2g(m: Seq<u8>) -> Seq<u8>;

/// A 32-byte encoding of a valid group element.
pub open spec fn is_point(p: Seq<u8>) -> bool {
    p.len() == 32 && is_valid_pt(p)
}

/// A point encoding that signing and verification accept: a valid canonical
/// encoding that is not the identity element.  The identity's canonical
/// encoding is all zero bytes, so its little-endian value is zero.
pub open spec fn is_usable_pt(p: Seq<u8>) -> bool {
    is_point(p) && le_val(p) != 0
}

/// The canonical encoding of the Ristretto basepoint.
pub open spec fn basepoint_bytes() -> Seq<u8> {
    seq![
        0xe2u8, 0xf2u8, 0xaeu8, 0x0au8, 0x6au8, 0xbcu8, 0x4eu8, 0x71u8,
        0xa8u8, 0x84u8, 0xa9u8, 0x61u8, 0xc5u8, 0x00u8, 0x51u8, 0x5fu8,
        0x58u8, 0xe3u8, 0x0bu8, 0x6au8, 0xa5u8, 0x82u8, 0xddu8, 0x8du8,
        0xb6u8, 0xa6u8, 0x59u8, 0x45u8, 0xe0u8, 0x8du8, 0x2du8, 0x76u8,
    ]
}

/// Relies on curve25519-dalek's `RISTRETTO_BASEPOINT_COMPRESSED`: the canonical
/// (hence decompressible) encoding of the group's basepoint.
#[verifier::external_body]
pub fn basepoint() -> (r: Vec<u8>)
    ensures
        r@ == basepoint_bytes(),
        is_valid_pt(r@),
{
    RISTRETTO_BASEPOINT_COMPRESSED.as_bytes().to_vec()
}

/// The basepoint is not the identity element: its encoding is not all zero.
pub proof fn lemma_basepoint_not_identity()
    ensures
        le_val(basepoint_bytes()) != 0,
{
    crate::bytes::lemma_le_val_zero(basepoint_bytes());
    assert(basepoint_bytes()[0] == 0xe2u8);
}

/// Relies on `CompressedRistretto::decompress`: succeeds exactly on canonical
/// encodings of group elements.
#[verifier::external_body]
pub fn pt_validate(p: &[u8]) -> (r: bool)
    requires
        p@.len() == 32,
    ensures
        r == is_valid_pt(p@),
{
    CompressedRistretto::from_slice(p)
        .map(|c| c.decompress().is_some())
        .unwrap_or(false)
}

/// Relies on curve25519-dalek: multiplication of a Ristretto point by a
/// scalar is the action of the integers modulo the group order on the group,
/// so `k * (a * Q) == (k * a % order) * Q == a * (k * Q)`; the group has
/// prime order, so on a non-identity point the action of a nonzero scalar is
/// non-identity and distinct scalars give distinct points; compression of
/// the result is canonical and the identity compresses to all zero bytes.
#[verifier::external_body]
pub fn pt_mul(k: &[u8], p: &[u8]) -> (r: Vec<u8>)
    requires
        is_scalar(k@),
        is_point(p@),
    ensures
        is_point(r@),
        r@ == spec_pt_mul(le_val(k@), p@),
        le_val(k@) != 0 && le_val(p@) != 0 ==> le_val(r@) != 0,
        forall|a: nat|
            a < group_order() && a != le_val(k@) && le_val(p@) != 0 ==> r@ != #[trigger]
                spec_pt_mul(a, p@),
        forall|a: nat, q: Seq<u8>|
            #![trigger spec_pt_mul(sc_mulv(le_val(k@), a), q)]
            p@ == spec_pt_mul(a, q) ==> r@ == spec_pt_mul(sc_mulv(le_val(k@), a), q),
        forall|a: nat, q: Seq<u8>|
            #![trigger spec_pt_mul(a, spec_pt_mul(le_val(k@), q))]
            p@ == spec_pt_mul(a, q) ==> r@ == spec_pt_mul(a, spec_pt_mul(le_val(k@), q)),
{
    let s = Scalar::from_canonical_bytes(<[u8; 32]>::try_from(k).unwrap()).unwrap();
    let pt = CompressedRistretto::from_slice(p).unwrap().decompress().unwrap();
    (s * pt).compress().as_bytes().to_vec()
}

/// Relies on curve25519-dalek: addition of Ristretto points is the group
/// operation, so `a * Q + b * Q == ((a + b) mod order) * Q` and
/// `a * U + a * V == a * (U + V)`; compression of the result is canonical.
#[verifier::external_body]
pub fn pt_add(p: &[u8], q: &[u8]) -> (r: Vec<u8>)
    requires
        is_point(p@),
        is_point(q@),
    ensures
        is_point(r@),
        r@ == spec_pt_add(p@, q@),
        forall|a: nat, b: nat, u: Seq<u8>|
            #![trigger spec_pt_mul(sc_addv(a, b), u), spec_pt_mul(b, u)]
            p@ == spec_pt_mul(a, u) && q@ == spec_pt_mul(b, u)
                ==> r@ == spec_pt_mul(sc_addv(a, b), u),
        forall|a: nat, u: Seq<u8>, v: Seq<u8>|
            #![trigger spec_pt_mul(a, spec_pt_add(u, v)), spec_pt_mul(a, u), spec_pt_mul(a, v)]
            p@ == spec_pt_mul(a, u) && q@ == spec_pt_mul(a, v)
                ==> r@ == spec_pt_mul(a, spec_pt_add(u, v)),
{
    let pp = CompressedRistretto::from_slice(p).unwrap().decompress().unwrap();
    let qq = CompressedRistretto::from_slice(q).unwrap().decompress().unwrap();
    (pp + qq).compress().as_bytes().to_vec()
}

/// Relies on `RistrettoPoint::hash_from_bytes::<Sha512>`: a hash onto the
/// group whose result depends on the input bytes alone.
#[verifier::external_body]
pub fn hash_to_group(m: &[u8]) -> (r: Vec<u8>)
    ensures
        is_point(r@),
        r@ == spec_h2g(m@),
{
    RistrettoPoint::hash_from_bytes::<Sha512>(m).compress().as_bytes().to_vec()
}

/// Relies on `Scalar::from_canonical_bytes`: succeeds exactly when the 32
/// little-endian bytes are below the group order.
#[verifier::external_body]
pub fn sc_validate(s: &[u8]) -> (r: bool)
    requires
        s@.len() == 32,
    ensures
        r == (le_val(s@) < group_order()),
{
    bool::from(Scalar::from_canonical_bytes(<[u8; 32]>::try_from(s).unwrap()).is_some())
}

/// Relies on `Scalar::from_bytes_mod_order_wide`: reduces a 64-byte
/// little-endian integer modulo the group order; `to_bytes` is canonical.
#[verifier::external_body]
pub fn sc_from_wide(b: &[u8]) -> (r: Vec<u8>)
    requires
        b@.len() == 64,
    ensures
        is_scalar(r@),
        le_val(r@) == le_val(b@) % group_order(),
{
    Scalar::from_bytes_mod_order_wide(&<[u8; 64]>::try_from(b).unwrap()).to_bytes().to_vec()
}

/// Relies on `Scalar` multiplication: multiplication of integers modulo the
/// group order, with canonical `to_bytes`.
#[verifier::external_body]
pub fn sc_mul(a: &[u8], b: &[u8]) -> (r: Vec<u8>)
    requires
        is_scalar(a@),
        is_scalar(b@),
    ensures
        is_scalar(r@),
        le_val(r@) == sc_mulv(le_val(a@), le_val(b@)),
{
    let x = Scalar::from_canonical_bytes(<[u8; 32]>::try_from(a).unwrap()).unwrap();
    let y = Scalar::from_canonical_bytes(<[u8; 32]>::try_from(b).unwrap()).unwrap();
    (x * y).to_bytes().to_vec()
}

/// Relies on `Scalar` addition: addition of integers modulo the group order,
/// with canonical `to_bytes`.
#[verifier::external_body]
pub fn sc_add(a: &[u8], b: &[u8]) -> (r: Vec<u8>)
    requires
        is_scalar(a@),
        is_scalar(b@),
    ensures
        is_scalar(r@),
        le_val(r@) == sc_addv(le_val(a@), le_val(b@)),
{
    let x = Scalar::from_canonical_bytes(<[u8; 32]>::try_from(a).unwrap()).unwrap();
    let y = Scalar::from_canonical_bytes(<[u8; 32]>::try_from(b).unwrap()).unwrap();
    (x + y).to_bytes().to_vec()
}

/// Relies on `Scalar` negation: negation modulo the group order, with
/// canonical `to_bytes`.
#[verifier::external_body]
pub fn sc_neg(a: &[u8]) -> (r: Vec<u8>)
    requires
        is_scalar(a@),
    ensures
        is_scalar(r@),
        le_val(r@) == sc_negv(le_val(a@)),
{
    let x = Scalar::from_canonical_bytes(<[u8; 32]>::try_from(a).unwrap()).unwrap();
    (-x).to_bytes().to_vec()
}

/// Relies on `Scalar::invert`: the multiplicative inverse modulo the group
/// order of a nonzero scalar, with canonical `to_bytes`.
#[verifier::external_body]
pub fn sc_invert(a: &[u8]) -> (r: Vec<u8>)
    requires
        is_scalar(a@),
        le_val(a@) != 0,
    ensures
        is_scalar(r@),
        sc_mulv(le_val(r@), le_val(a@)) == 1,
{
    let x = Scalar::from_canonical_bytes(<[u8; 32]>::try_from(a).unwrap()).unwrap();
    x.invert().to_bytes().to_vec()
}

} // verus!
