//! The token core and the verification core.
//!
//! A client samples a [`Token`] (a random preimage plus a secret blinding
//! scalar), blinds it and hands the [`BlindedToken`] to the server, which
//! signs it with its [`SigningKey`].  Dividing the signature by the blinding
//! scalar yields the same [`UnblindedToken`] that the server can later
//! rederive from the disclosed preimage alone; both sides then derive the
//! same per-token MAC key from it.

use vstd::prelude::*;
use vstd::arithmetic::div_mod::{
    lemma_mul_mod_noop_left, lemma_mul_mod_noop_right, lemma_small_mod,
};
use vstd::arithmetic::mul::{lemma_mul_is_associative, lemma_mul_is_commutative};
use crate::bytes::{bytes_all_zero, copy_bytes, le_val, push_all};
use crate::errors::TokenError;
use crate::group::{
    basepoint, basepoint_bytes, group_order, hash_to_group, is_scalar, is_usable_pt, is_valid_pt,
    lemma_basepoint_not_identity, pt_mul, pt_validate, sc_from_wide, sc_invert, sc_mulv, spec_h2g,
    spec_pt_mul,
};
use crate::hashing::{ct_eq, hmac_sha512, sha512, spec_hmac_sha512, spec_sha512};
use crate::rng::fill_random;

verus! {

/// The number of bytes in a token preimage.
pub const PREIMAGE_LENGTH: usize = 64;

/// The random seed defining a token's identity; hashed into the group at
/// blinding and at rederivation.
pub struct TokenPreimage {
    pub bytes: Vec<u8>,
}

impl TokenPreimage {
    /// A preimage is a 64-byte seed.
    pub open spec fn wf(&self) -> bool {
        self.bytes@.len() == PREIMAGE_LENGTH
    }
}

/// The client's secret token state: a preimage and a blinding scalar.
pub struct Token {
    /// The token's random identity seed.
    pub preimage: TokenPreimage,
    /// The secret nonzero blinding scalar, never shown to the server.
    pub blinding: Vec<u8>,
}

impl Token {
    /// The preimage is well-formed and the blinding scalar is canonical and
    /// nonzero (so that unblinding can invert it).
    pub open spec fn wf(&self) -> bool {
        &&& self.preimage.wf()
        &&& is_scalar(self.blinding@)
        &&& le_val(self.blinding@) != 0
    }

    /// Samples a fresh token from the secure random source.
    pub fn random() -> (r: Result<Token, TokenError>)
        ensures
            r matches Ok(t) ==> t.wf(),
            r matches Err(e) ==> e == TokenError::RandomSourceFailure,
    {
        let seed = match fill_random(PREIMAGE_LENGTH) {
            Some(b) => b,
            None => {
                return Err(TokenError::RandomSourceFailure);
            },
        };
        let blinding = match random_nonzero_scalar() {
            Ok(s) => s,
            Err(e) => {
                return Err(e);
            },
        };
        Ok(Token { preimage: TokenPreimage { bytes: seed }, blinding })
    }

    /// Blinds the token: hashes the preimage into the group and multiplies by
    /// the blinding scalar.
    pub fn blind(&self) -> (r: BlindedToken)
        requires
            self.wf(),
        ensures
            r.wf(),
            is_valid_pt(r.point@),
            r.point@ == spec_pt_mul(le_val(self.blinding@), spec_h2g(self.preimage.bytes@)),
            le_val(spec_h2g(self.preimage.bytes@)) != 0 ==> is_usable_pt(r.point@),
    {
        let t = hash_to_group(self.preimage.bytes.as_slice());
        BlindedToken { point: pt_mul(self.blinding.as_slice(), t.as_slice()) }
    }

    /// The token's preimage.
    pub fn preimage(&self) -> (r: TokenPreimage)
        ensures
            r.bytes@ == self.preimage.bytes@,
    {
        TokenPreimage { bytes: copy_bytes(self.preimage.bytes.as_slice()) }
    }
}

/// A token preimage blinded by the client's secret scalar.
pub struct BlindedToken {
    pub point: Vec<u8>,
}

impl BlindedToken {
    /// A blinded token carries a 32-byte point encoding, validated only when
    /// it is used for arithmetic.
    pub open spec fn wf(&self) -> bool {
        self.point@.len() == 32
    }
}

/// The public commitment `k * G` to a signing key.
pub struct PublicKey {
    pub point: Vec<u8>,
}

impl PublicKey {
    /// A public key carries a 32-byte point encoding, validated only when it
    /// is used for arithmetic.
    pub open spec fn wf(&self) -> bool {
        self.point@.len() == 32
    }
}

/// The server's signature `k * (blinded token)`.
pub struct SignedToken {
    pub point: Vec<u8>,
}

impl SignedToken {
    /// A signed token carries a 32-byte point encoding.
    pub open spec fn wf(&self) -> bool {
        self.point@.len() == 32
    }
}

/// The server's long-term secret scalar together with its public key.
pub struct SigningKey {
    /// The secret scalar `k`.
    pub secret: Vec<u8>,
    /// The cached public commitment `k * G`.
    pub public_key: PublicKey,
}

impl SigningKey {
    /// The secret is a canonical nonzero scalar and the cached public key is
    /// its commitment under the basepoint.
    pub open spec fn wf(&self) -> bool {
        &&& is_scalar(self.secret@)
        &&& le_val(self.secret@) != 0
        &&& self.public_key.point@ == spec_pt_mul(le_val(self.secret@), basepoint_bytes())
        &&& is_usable_pt(self.public_key.point@)
        &&& self.public_key.wf()
    }

    /// Samples a fresh signing key from the secure random source.
    pub fn random() -> (r: Result<SigningKey, TokenError>)
        ensures
            r matches Ok(k) ==> k.wf(),
            r matches Err(e) ==> e == TokenError::RandomSourceFailure,
    {
        let secret = match random_nonzero_scalar() {
            Ok(s) => s,
            Err(e) => {
                return Err(e);
            },
        };
        let g = basepoint();
        let y = pt_mul(secret.as_slice(), g.as_slice());
        proof {
            lemma_basepoint_not_identity();
        }
        Ok(SigningKey { secret, public_key: PublicKey { point: y } })
    }

    /// Signs a blinded token, rejecting an invalid encoding or the identity
    /// element before any arithmetic touches it.
    pub fn sign(&self, blinded_token: &BlindedToken) -> (r: Result<SignedToken, TokenError>)
        requires
            self.wf(),
            blinded_token.wf(),
        ensures
            is_usable_pt(blinded_token.point@) ==> r is Ok,
            !is_usable_pt(blinded_token.point@) ==> r == Err::<SignedToken, TokenError>(
                TokenError::InvalidGroupElement,
            ),
            r matches Ok(w) ==> {
                &&& w.wf()
                &&& is_usable_pt(w.point@)
                &&& w.point@ == spec_pt_mul(le_val(self.secret@), blinded_token.point@)
                &&& forall|a: nat, q: Seq<u8>|
                    #![trigger spec_pt_mul(sc_mulv(le_val(self.secret@), a), q)]
                    blinded_token.point@ == spec_pt_mul(a, q)
                        ==> w.point@ == spec_pt_mul(sc_mulv(le_val(self.secret@), a), q)
            },
    {
        if !pt_validate(blinded_token.point.as_slice()) {
            return Err(TokenError::InvalidGroupElement);
        }
        if bytes_all_zero(blinded_token.point.as_slice()) {
            return Err(TokenError::InvalidGroupElement);
        }
        let w = pt_mul(self.secret.as_slice(), blinded_token.point.as_slice());
        Ok(SignedToken { point: w })
    }

    /// Recomputes the unblinded token `k * H1(t)` from a disclosed preimage;
    /// used by the server at redemption.
    pub fn rederive_unblinded_token(&self, t: &TokenPreimage) -> (r: UnblindedToken)
        requires
            self.wf(),
            t.wf(),
        ensures
            r.wf(),
            r.t.bytes@ == t.bytes@,
            is_valid_pt(r.w@),
            r.w@ == spec_pt_mul(le_val(self.secret@), spec_h2g(t.bytes@)),
            forall|a: nat|
                a < group_order() && a != le_val(self.secret@) && le_val(spec_h2g(t.bytes@)) != 0
                    ==> r.w@ != #[trigger] spec_pt_mul(a, spec_h2g(t.bytes@)),
    {
        let p = hash_to_group(t.bytes.as_slice());
        let w = pt_mul(self.secret.as_slice(), p.as_slice());
        UnblindedToken { t: TokenPreimage { bytes: copy_bytes(t.bytes.as_slice()) }, w }
    }

    /// The public key for this signing key.
    pub fn public_key(&self) -> (r: PublicKey)
        ensures
            r.point@ == self.public_key.point@,
    {
        PublicKey { point: copy_bytes(self.public_key.point.as_slice()) }
    }
}

/// The final credential `k * H1(t)` together with the preimage `t`.
pub struct UnblindedToken {
    /// The token preimage, disclosed to the server at redemption.
    pub t: TokenPreimage,
    /// The encoding of the group element `k * H1(t)`.
    pub w: Vec<u8>,
}

impl UnblindedToken {
    /// The preimage is well-formed and the credential is a 32-byte point
    /// encoding.
    pub open spec fn wf(&self) -> bool {
        &&& self.t.wf()
        &&& self.w@.len() == 32
    }

    /// Derives the per-token MAC key: the SHA-512 digest of preimage and
    /// credential point.
    pub fn derive_verification_key_sha512(&self) -> (r: VerificationKey)
        ensures
            r.wf(),
            r.bytes@ == spec_sha512(self.t.bytes@ + self.w@),
    {
        let buf: Vec<u8> = Vec::new();
        let buf = push_all(buf, self.t.bytes.as_slice());
        let buf = push_all(buf, self.w.as_slice());
        proof {
            assert(buf@ =~= self.t.bytes@ + self.w@);
        }
        VerificationKey { bytes: sha512(buf.as_slice()) }
    }

    /// The preimage carried by this unblinded token.
    pub fn preimage(&self) -> (r: TokenPreimage)
        ensures
            r.bytes@ == self.t.bytes@,
    {
        TokenPreimage { bytes: copy_bytes(self.t.bytes.as_slice()) }
    }
}

/// The per-token symmetric MAC key; never transmitted.
pub struct VerificationKey {
    pub bytes: Vec<u8>,
}

impl VerificationKey {
    /// A verification key is a 64-byte digest.
    pub open spec fn wf(&self) -> bool {
        self.bytes@.len() == 64
    }

    /// Authenticates a redemption message: the HMAC-SHA512 tag under this
    /// key.
    pub fn sign_sha512(&self, message: &[u8]) -> (r: VerificationSignature)
        ensures
            r.wf(),
            r.bytes@ == spec_hmac_sha512(self.bytes@, message@),
    {
        VerificationSignature { bytes: hmac_sha512(self.bytes.as_slice(), message) }
    }

    /// Checks a tag in constant time: true exactly when the tag is the
    /// HMAC-SHA512 of the message under this key.
    pub fn verify_sha512(&self, sig: &VerificationSignature, message: &[u8]) -> (r: bool)
        ensures
            r == (sig.bytes@ == spec_hmac_sha512(self.bytes@, message@)),
    {
        let expected = hmac_sha512(self.bytes.as_slice(), message);
        ct_eq(sig.bytes.as_slice(), expected.as_slice())
    }
}

/// An authentication tag over a redemption message.
pub struct VerificationSignature {
    pub bytes: Vec<u8>,
}

impl VerificationSignature {
    /// A tag is 64 bytes.
    pub open spec fn wf(&self) -> bool {
        self.bytes@.len() == 64
    }
}

/// Samples a canonical nonzero scalar, giving up (rather than degrading) if
/// the random source fails or keeps returning zero.
fn random_nonzero_scalar() -> (r: Result<Vec<u8>, TokenError>)
    ensures
        r matches Ok(v) ==> is_scalar(v@) && le_val(v@) != 0,
        r matches Err(e) ==> e == TokenError::RandomSourceFailure,
{
    let mut attempts: usize = 0;
    while attempts < 8
        invariant
            attempts <= 8,
        decreases 8 - attempts,
    {
        let wide = match fill_random(64) {
            Some(b) => b,
            None => {
                return Err(TokenError::RandomSourceFailure);
            },
        };
        let s = sc_from_wide(wide.as_slice());
        if !bytes_all_zero(s.as_slice()) {
            return Ok(s);
        }
        attempts = attempts + 1;
    }
    Err(TokenError::RandomSourceFailure)
}

/// Multiplying by a scalar and then by its inverse is the identity on scalar
/// values below the group order.
proof fn lemma_inverse_cancels(iv: nat, rv: nat, a: nat)
    requires
        sc_mulv(iv, rv) == 1,
        a < group_order(),
    ensures
        sc_mulv(iv, sc_mulv(a, rv)) == a,
{
    crate::group::lemma_group_order_pos();
    let l = group_order() as int;
    lemma_mul_mod_noop_right(iv as int, (a * rv) as int, l);
    assert(iv * (a * rv) == (iv * rv) * a) by {
        lemma_mul_is_associative(iv as int, a as int, rv as int);
        lemma_mul_is_commutative(iv as int, a as int);
        lemma_mul_is_associative(a as int, iv as int, rv as int);
        lemma_mul_is_commutative(a as int, (iv * rv) as int);
    }
    lemma_mul_mod_noop_left((iv * rv) as int, a as int, l);
    lemma_small_mod(a, group_order());
}

/// Divides a signed token by the token's blinding scalar.  Exposed only
/// through batch proof verification, never as a bare operation.
pub(crate) fn unblind(token: &Token, signed_token: &SignedToken) -> (r: UnblindedToken)
    requires
        token.wf(),
        signed_token.wf(),
        is_valid_pt(signed_token.point@),
    ensures
        r.wf(),
        is_valid_pt(r.w@),
        r.t.bytes@ == token.preimage.bytes@,
        forall|a: nat, q: Seq<u8>|
            a < group_order() && signed_token.point@ == #[trigger] spec_pt_mul(
                sc_mulv(a, le_val(token.blinding@)),
                q,
            ) ==> r.w@ == spec_pt_mul(a, q),
{
    let inv = sc_invert(token.blinding.as_slice());
    let w = pt_mul(inv.as_slice(), signed_token.point.as_slice());
    proof {
        assert forall|a: nat, q: Seq<u8>|
            a < group_order() && signed_token.point@ == #[trigger] spec_pt_mul(
                sc_mulv(a, le_val(token.blinding@)),
                q,
            ) implies w@ == spec_pt_mul(a, q) by {
            assert(w@ == spec_pt_mul(
                sc_mulv(le_val(inv@), sc_mulv(a, le_val(token.blinding@))),
                q,
            ));
            lemma_inverse_cancels(le_val(inv@), le_val(token.blinding@), a);
        }
    }
    UnblindedToken { t: TokenPreimage { bytes: copy_bytes(token.preimage.bytes.as_slice()) }, w }
}

/// Law: unblinding a freshly signed blinded token yields exactly the
/// credential that the server rederives from the preimage alone.  The one
/// exception is a preimage that hashes to the identity element, whose blinded
/// form the server refuses to sign.
pub fn unblinding_matches_rederivation(token: &Token, signing_key: &SigningKey) -> (r: Result<
    (UnblindedToken, UnblindedToken),
    TokenError,
>)
    requires
        token.wf(),
        signing_key.wf(),
    ensures
        le_val(spec_h2g(token.preimage.bytes@)) != 0 ==> r is Ok,
        r matches Ok(pair) ==> pair.0.w@ == pair.1.w@ && pair.0.t.bytes@ == pair.1.t.bytes@,
        r matches Err(e) ==> e == TokenError::InvalidGroupElement && le_val(
            spec_h2g(token.preimage.bytes@),
        ) == 0,
{
    let blinded = token.blind();
    let signed = match signing_key.sign(&blinded) {
        Ok(w) => w,
        Err(e) => {
            return Err(e);
        },
    };
    let u1 = unblind(token, &signed);
    let u2 = signing_key.rederive_unblinded_token(&token.preimage());
    proof {
        let k = le_val(signing_key.secret@);
        let rv = le_val(token.blinding@);
        let t = spec_h2g(token.preimage.bytes@);
        assert(blinded.point@ == spec_pt_mul(rv, t));
        assert(signed.point@ == spec_pt_mul(sc_mulv(k, rv), t));
        assert(u1.w@ == spec_pt_mul(k, t));
        assert(sc_mulv(k, rv) == sc_mulv(rv, k)) by {
            lemma_mul_is_commutative(k as int, rv as int);
        }
    }
    Ok((u1, u2))
}

/// Law: rederiving one preimage under signing keys with distinct secret
/// scalars yields distinct credentials, whenever the preimage does not hash
/// to the identity element.
pub fn rederivations_under_distinct_keys_differ(
    key1: &SigningKey,
    key2: &SigningKey,
    t: &TokenPreimage,
) -> (r: bool)
    requires
        key1.wf(),
        key2.wf(),
        t.wf(),
    ensures
        r == (spec_pt_mul(le_val(key1.secret@), spec_h2g(t.bytes@)) != spec_pt_mul(
            le_val(key2.secret@),
            spec_h2g(t.bytes@),
        )),
        le_val(key1.secret@) != le_val(key2.secret@) && le_val(spec_h2g(t.bytes@)) != 0 ==> r,
{
    let u1 = key1.rederive_unblinded_token(t);
    let u2 = key2.rederive_unblinded_token(t);
    !ct_eq(u1.w.as_slice(), u2.w.as_slice())
}

/// Law: a tag produced by `sign_sha512` always passes `verify_sha512` under
/// the same key and message.
pub fn mac_sign_verify_round_trip(key: &VerificationKey, message: &[u8]) -> (ok: bool)
    ensures
        ok,
{
    let sig = key.sign_sha512(message);
    key.verify_sha512(&sig, message)
}

} // verus!
