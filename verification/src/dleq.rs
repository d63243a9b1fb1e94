//! The batch proof core: one discrete-log-equivalence proof for a whole
//! batch of signed tokens.
//!
//! The server proves knowledge of a single scalar `k` with `Y == k * G` and
//! `W_i == k * B_i` for every pair in the batch.  Batching scalars `c_i` are
//! drawn from a Fiat-Shamir transcript over the full ordered batch; the
//! composites `M = sum c_i * B_i` and `Z = sum c_i * W_i` then satisfy
//! `Z == k * M` exactly when signing was consistent, and one Schnorr proof
//! covers both relations.  Verification recomputes the commitments from the
//! challenge and response, and only on success unblinds the batch.

use vstd::prelude::*;
use vstd::arithmetic::div_mod::{
    lemma_add_mod_noop, lemma_fundamental_div_mod, lemma_mod_multiples_basic,
    lemma_mod_multiples_vanish, lemma_mul_mod_noop_left, lemma_small_mod,
};
use vstd::arithmetic::mul::{
    lemma_mul_is_commutative, lemma_mul_is_distributive_add_other_way,
};
use crate::bytes::{concat_all, le_bytes, le_val, lemma_concat_all_step, lemma_le_val_injective,
    push_all, u64_le_bytes};
use crate::errors::TokenError;
use crate::bytes::bytes_all_zero;
use crate::group::{
    basepoint, basepoint_bytes, group_order, is_point, is_scalar, is_usable_pt, is_valid_pt,
    lemma_group_order_pos, pt_add, pt_mul, pt_validate, sc_add, sc_addv, sc_from_wide, sc_mul,
    sc_mulv, sc_neg, sc_negv, spec_h2g, spec_pt_add, spec_pt_mul,
};
use crate::hashing::{ct_eq, sha512, spec_sha512};
use crate::rng::fill_random;
use crate::voprf::{unblind, BlindedToken, PublicKey, SignedToken, SigningKey, Token,
    UnblindedToken};

verus! {

/// The point encodings carried by a sequence of blinded tokens.
pub open spec fn blinded_views(s: Seq<BlindedToken>) -> Seq<Seq<u8>> {
    s.map_values(|b: BlindedToken| b.point@)
}

/// The point encodings carried by a sequence of signed tokens.
pub open spec fn signed_views(s: Seq<SignedToken>) -> Seq<Seq<u8>> {
    s.map_values(|w: SignedToken| w.point@)
}

/// The scalar values carried by a sequence of scalar encodings.
pub open spec fn coeff_vals(s: Seq<Vec<u8>>) -> Seq<nat> {
    s.map_values(|c: Vec<u8>| le_val(c@))
}

/// Every blinded token in the sequence encodes a valid, non-identity group
/// element.
pub open spec fn all_usable_blinded(s: Seq<BlindedToken>) -> bool {
    forall|i: int| 0 <= i < s.len() ==> is_usable_pt(#[trigger] s[i].point@)
}

/// Every signed token in the sequence encodes a valid, non-identity group
/// element.
pub open spec fn all_usable_signed(s: Seq<SignedToken>) -> bool {
    forall|i: int| 0 <= i < s.len() ==> is_usable_pt(#[trigger] s[i].point@)
}

/// The Fiat-Shamir transcript of a batch: all blinded tokens, then all
/// signed tokens, then the public key.
pub open spec fn spec_transcript(bs: Seq<Seq<u8>>, ws: Seq<Seq<u8>>, y: Seq<u8>) -> Seq<u8> {
    concat_all(bs) + concat_all(ws) + y
}

/// The `i`-th batching scalar drawn from a transcript hash.
pub open spec fn spec_coeff(th: Seq<u8>, i: nat) -> nat {
    le_val(spec_sha512(th + le_bytes(i, 8))) % group_order()
}

/// The first `n` batching scalars drawn from a transcript hash.
pub open spec fn spec_coeffs(th: Seq<u8>, n: nat) -> Seq<nat> {
    Seq::new(n, |i: int| spec_coeff(th, i as nat))
}

/// The linear combination `sum cs[i] * ps[i]`, associated to the left as the
/// implementation computes it.
pub open spec fn spec_lincomb(cs: Seq<nat>, ps: Seq<Seq<u8>>) -> Seq<u8>
    decreases ps.len(),
{
    if ps.len() == 0 {
        Seq::empty()
    } else if ps.len() == 1 {
        spec_pt_mul(cs[0], ps[0])
    } else {
        let n = ps.len() as int;
        spec_pt_add(
            spec_lincomb(cs.take(n - 1), ps.take(n - 1)),
            spec_pt_mul(cs[n - 1], ps[n - 1]),
        )
    }
}

/// Extending a linear combination by one term adds that term on the right.
proof fn lemma_lincomb_step(cs: Seq<nat>, ps: Seq<Seq<u8>>, i: int)
    requires
        0 < i < ps.len(),
        cs.len() == ps.len(),
    ensures
        spec_lincomb(cs.take(i + 1), ps.take(i + 1)) == spec_pt_add(
            spec_lincomb(cs.take(i), ps.take(i)),
            spec_pt_mul(cs[i], ps[i]),
        ),
{
    assert(cs.take(i + 1).take(i) =~= cs.take(i));
    assert(ps.take(i + 1).take(i) =~= ps.take(i));
}

/// The challenge scalar of the Schnorr proof, drawn from the basepoint, the
/// public key, the composites and the commitments.
pub open spec fn spec_challenge(
    y: Seq<u8>,
    m: Seq<u8>,
    z: Seq<u8>,
    a1: Seq<u8>,
    b1: Seq<u8>,
) -> nat {
    le_val(spec_sha512(basepoint_bytes() + y + m + z + a1 + b1)) % group_order()
}

/// What an honest prover outputs for a batch: the challenge commits to the
/// nonce's commitments and the response is `nonce + challenge * k`.
pub open spec fn spec_proof_of(
    c: nat,
    s: nat,
    bs: Seq<Seq<u8>>,
    ws: Seq<Seq<u8>>,
    y: Seq<u8>,
    k: nat,
    n: nat,
) -> bool {
    let th = spec_sha512(spec_transcript(bs, ws, y));
    let cs = spec_coeffs(th, bs.len());
    let m = spec_lincomb(cs, bs);
    let z = spec_lincomb(cs, ws);
    &&& n < group_order()
    &&& c == spec_challenge(y, m, z, spec_pt_mul(n, basepoint_bytes()), spec_pt_mul(n, m))
    &&& s == sc_addv(n, sc_mulv(c, k))
}

/// The proof value has the shape an honest prover produces for this batch
/// under secret key `k`, for some nonce.
pub open spec fn proof_has_honest_shape(
    p: BatchDLEQProof,
    bs: Seq<Seq<u8>>,
    ws: Seq<Seq<u8>>,
    y: Seq<u8>,
    k: nat,
) -> bool {
    exists|n: nat| spec_proof_of(le_val(p.challenge@), le_val(p.response@), bs, ws, y, k, n)
}

/// The verification equation: recompute the commitments from challenge and
/// response, and compare the recomputed challenge.
pub open spec fn spec_verify(c: nat, s: nat, bs: Seq<Seq<u8>>, ws: Seq<Seq<u8>>, y: Seq<u8>) -> bool {
    let th = spec_sha512(spec_transcript(bs, ws, y));
    let cs = spec_coeffs(th, bs.len());
    let m = spec_lincomb(cs, bs);
    let z = spec_lincomb(cs, ws);
    let a1 = spec_pt_add(spec_pt_mul(s, basepoint_bytes()), spec_pt_mul(sc_negv(c), y));
    let b1 = spec_pt_add(spec_pt_mul(s, m), spec_pt_mul(sc_negv(c), z));
    c == spec_challenge(y, m, z, a1, b1)
}

/// A batch that was honestly blinded and signed under secret key `k` with
/// nonce `n`: every signed token is `k` times the matching blinded token,
/// every blinded token blinds the matching token, the public key commits to
/// `k`, and the proof has the honest prover's shape.
pub open spec fn honest_batch(
    tokens: Seq<Token>,
    bs: Seq<Seq<u8>>,
    ws: Seq<Seq<u8>>,
    y: Seq<u8>,
    c: nat,
    s: nat,
    k: nat,
    n: nat,
) -> bool {
    &&& tokens.len() == bs.len()
    &&& bs.len() == ws.len()
    &&& bs.len() > 0
    &&& k < group_order()
    &&& is_usable_pt(y)
    &&& y == spec_pt_mul(k, basepoint_bytes())
    &&& forall|i: int|
        0 <= i < bs.len() ==> {
            &&& is_usable_pt(#[trigger] bs[i])
            &&& is_usable_pt(ws[i])
            &&& bs[i] == spec_pt_mul(
                le_val(tokens[i].blinding@),
                spec_h2g(tokens[i].preimage.bytes@),
            )
            &&& ws[i] == spec_pt_mul(k, bs[i])
            &&& ws[i] == spec_pt_mul(
                sc_mulv(k, le_val(tokens[i].blinding@)),
                spec_h2g(tokens[i].preimage.bytes@),
            )
        }
    &&& spec_proof_of(c, s, bs, ws, y, k, n)
}

/// The response of an honest prover cancels the challenge term during
/// verification, leaving the nonce.
proof fn lemma_schnorr_response(n: nat, c: nat, k: nat)
    requires
        n < group_order(),
    ensures
        sc_addv(sc_addv(n, sc_mulv(c, k)), sc_mulv(sc_negv(c), k)) == n,
{
    lemma_group_order_pos();
    let l = group_order() as int;
    let u = sc_mulv(c, k);
    let v = sc_mulv(sc_negv(c), k);
    // v == ((l - c % l) * k) % l
    lemma_mul_mod_noop_left(l - (c as int) % l, k as int, l);
    // u + v == ((c + l - c % l) * k) % l-ish: first put both under one mod
    lemma_add_mod_noop(c as int * k as int, (l - (c as int) % l) * k as int, l);
    lemma_small_mod(u, group_order());
    lemma_small_mod(v, group_order());
    assert(((u + v) as int) % l == (c as int * k as int + (l - (c as int) % l) * k as int) % l);
    lemma_mul_is_distributive_add_other_way(k as int, c as int, l - (c as int) % l);
    assert(c as int * k as int + (l - (c as int) % l) * k as int == (c as int + l - (c as int) % l)
        * k as int);
    lemma_fundamental_div_mod(c as int, l);
    assert(c as int + l - (c as int) % l == l * ((c as int) / l) + l);
    assert((l * ((c as int) / l) + l) == l * ((c as int) / l + 1)) by {
        lemma_mul_is_distributive_add_other_way(l, (c as int) / l, 1);
        lemma_mul_is_commutative(l, (c as int) / l + 1);
        lemma_mul_is_commutative(l, (c as int) / l);
    }
    assert((l * ((c as int) / l + 1)) * k as int == (((c as int) / l + 1) * k as int) * l) by {
        lemma_mul_is_commutative(l, (c as int) / l + 1);
        vstd::arithmetic::mul::lemma_mul_is_associative((c as int) / l + 1, l, k as int);
        lemma_mul_is_commutative(l, k as int);
        vstd::arithmetic::mul::lemma_mul_is_associative((c as int) / l + 1, k as int, l);
    }
    lemma_mod_multiples_basic(((c as int) / l + 1) * k as int, l);
    assert(((u + v) as int) % l == 0);
    // now fold the outer sum
    lemma_add_mod_noop((n + u) as int, v as int, l);
    lemma_small_mod((n + u) % group_order(), group_order());
    assert(sc_addv(sc_addv(n, u), v) == ((n + u + v) as int % l) as nat) by {
        lemma_small_mod(sc_addv(n, u), group_order());
        lemma_small_mod(v, group_order());
    }
    lemma_fundamental_div_mod((u + v) as int, l);
    assert(u + v == l * (((u + v) as int) / l));
    lemma_mod_multiples_vanish(((u + v) as int) / l, n as int, l);
    assert((n as int + (u + v)) % l == n as int % l);
    lemma_small_mod(n, group_order());
}

/// Whether every blinded token in the batch is a valid, non-identity group
/// element.
fn check_blinded_usable(v: &Vec<BlindedToken>) -> (r: bool)
    requires
        forall|i: int| 0 <= i < v@.len() ==> (#[trigger] v@[i]).wf(),
    ensures
        r == all_usable_blinded(v@),
{
    let mut i: usize = 0;
    while i < v.len()
        invariant
            i <= v@.len(),
            forall|i2: int| 0 <= i2 < v@.len() ==> (#[trigger] v@[i2]).wf(),
            forall|j: int| 0 <= j < i ==> is_usable_pt(#[trigger] v@[j].point@),
        decreases v@.len() - i,
    {
        if !pt_validate(v[i].point.as_slice()) || bytes_all_zero(v[i].point.as_slice()) {
            assert(!all_usable_blinded(v@));
            return false;
        }
        i = i + 1;
    }
    true
}

/// Whether every signed token in the batch is a valid, non-identity group
/// element.
fn check_signed_usable(v: &Vec<SignedToken>) -> (r: bool)
    requires
        forall|i: int| 0 <= i < v@.len() ==> (#[trigger] v@[i]).wf(),
    ensures
        r == all_usable_signed(v@),
{
    let mut i: usize = 0;
    while i < v.len()
        invariant
            i <= v@.len(),
            forall|i2: int| 0 <= i2 < v@.len() ==> (#[trigger] v@[i2]).wf(),
            forall|j: int| 0 <= j < i ==> is_usable_pt(#[trigger] v@[j].point@),
        decreases v@.len() - i,
    {
        if !pt_validate(v[i].point.as_slice()) || bytes_all_zero(v[i].point.as_slice()) {
            assert(!all_usable_signed(v@));
            return false;
        }
        i = i + 1;
    }
    true
}

/// The SHA-512 hash of the batch transcript.
fn transcript_hash(blinded: &Vec<BlindedToken>, signed: &Vec<SignedToken>, y: &[u8]) -> (r: Vec<
    u8,
>)
    ensures
        r@.len() == 64,
        r@ == spec_sha512(spec_transcript(blinded_views(blinded@), signed_views(signed@), y@)),
{
    let mut buf: Vec<u8> = Vec::new();
    let ghost bv = blinded_views(blinded@);
    let ghost wv = signed_views(signed@);
    let mut i: usize = 0;
    while i < blinded.len()
        invariant
            i <= blinded@.len(),
            bv == blinded_views(blinded@),
            buf@ == concat_all(bv.take(i as int)),
        decreases blinded@.len() - i,
    {
        buf = push_all(buf, blinded[i].point.as_slice());
        proof {
            lemma_concat_all_step(bv, i as int);
        }
        i = i + 1;
    }
    proof {
        assert(bv.take(blinded@.len() as int) =~= bv);
    }
    let ghost mid = buf@;
    let mut j: usize = 0;
    while j < signed.len()
        invariant
            j <= signed@.len(),
            wv == signed_views(signed@),
            mid == concat_all(blinded_views(blinded@)),
            buf@ == mid + concat_all(wv.take(j as int)),
        decreases signed@.len() - j,
    {
        buf = push_all(buf, signed[j].point.as_slice());
        proof {
            lemma_concat_all_step(wv, j as int);
            assert(buf@ =~= mid + concat_all(wv.take(j as int + 1)));
        }
        j = j + 1;
    }
    proof {
        assert(wv.take(signed@.len() as int) =~= wv);
    }
    buf = push_all(buf, y);
    proof {
        assert(buf@ =~= spec_transcript(bv, wv, y@));
    }
    sha512(buf.as_slice())
}

/// The first `n` batching scalars for a transcript hash.
fn batch_coeffs(th: &Vec<u8>, n: usize) -> (r: Vec<Vec<u8>>)
    requires
        th@.len() == 64,
    ensures
        r@.len() == n,
        forall|i: int|
            0 <= i < n ==> is_scalar((#[trigger] r@[i])@) && le_val(r@[i]@) == spec_coeff(
                th@,
                i as nat,
            ),
{
    let mut out: Vec<Vec<u8>> = Vec::new();
    let mut i: usize = 0;
    while i < n
        invariant
            i <= n,
            out@.len() == i,
            forall|j: int|
                0 <= j < i ==> is_scalar((#[trigger] out@[j])@) && le_val(out@[j]@) == spec_coeff(
                    th@,
                    j as nat,
                ),
        decreases n - i,
    {
        let idx = u64_le_bytes(i as u64);
        let buf: Vec<u8> = Vec::new();
        let buf = push_all(buf, th.as_slice());
        let buf = push_all(buf, idx.as_slice());
        proof {
            assert(buf@ =~= th@ + le_bytes(i as nat, 8));
        }
        let digest = sha512(buf.as_slice());
        let c = sc_from_wide(digest.as_slice());
        out.push(c);
        i = i + 1;
    }
    out
}

/// Computes the composites `M = sum cs[i] * B_i` and `Z = sum cs[i] * W_i`,
/// and records that `Z == k * M` whenever every `W_i` is `k * B_i`.
fn lincomb_pair(cs: &Vec<Vec<u8>>, blinded: &Vec<BlindedToken>, signed: &Vec<SignedToken>) -> (r:
    (Vec<u8>, Vec<u8>))
    requires
        cs@.len() == blinded@.len(),
        blinded@.len() == signed@.len(),
        blinded@.len() > 0,
        forall|i: int| 0 <= i < cs@.len() ==> is_scalar((#[trigger] cs@[i])@),
        forall|i: int| 0 <= i < blinded@.len() ==> (#[trigger] blinded@[i]).wf(),
        forall|i: int| 0 <= i < signed@.len() ==> (#[trigger] signed@[i]).wf(),
        all_usable_blinded(blinded@),
        all_usable_signed(signed@),
    ensures
        is_point(r.0@),
        is_point(r.1@),
        r.0@ == spec_lincomb(coeff_vals(cs@), blinded_views(blinded@)),
        r.1@ == spec_lincomb(coeff_vals(cs@), signed_views(signed@)),
        forall|kk: nat|
            (forall|j: int|
                0 <= j < signed@.len() ==> signed_views(signed@)[j] == spec_pt_mul(
                    kk,
                    blinded_views(blinded@)[j],
                )) ==> r.1@ == #[trigger] spec_pt_mul(kk, r.0@),
{
    let ghost cv = coeff_vals(cs@);
    let ghost bv = blinded_views(blinded@);
    let ghost wv = signed_views(signed@);
    let mut m = pt_mul(cs[0].as_slice(), blinded[0].point.as_slice());
    let mut z = pt_mul(cs[0].as_slice(), signed[0].point.as_slice());
    proof {
        assert(m@ == spec_lincomb(cv.take(1), bv.take(1)));
        assert(z@ == spec_lincomb(cv.take(1), wv.take(1)));
        assert forall|kk: nat|
            (forall|j: int| 0 <= j < 1 ==> wv[j] == spec_pt_mul(kk, bv[j])) implies z@
            == #[trigger] spec_pt_mul(kk, m@) by {
            assert(wv[0] == spec_pt_mul(kk, bv[0]));
            assert(z@ == spec_pt_mul(kk, spec_pt_mul(cv[0], bv[0])));
        }
    }
    let mut i: usize = 1;
    while i < blinded.len()
        invariant
            1 <= i <= blinded@.len(),
            cv == coeff_vals(cs@),
            bv == blinded_views(blinded@),
            wv == signed_views(signed@),
            cs@.len() == blinded@.len(),
            blinded@.len() == signed@.len(),
            forall|i2: int| 0 <= i2 < cs@.len() ==> is_scalar((#[trigger] cs@[i2])@),
            forall|i2: int| 0 <= i2 < blinded@.len() ==> (#[trigger] blinded@[i2]).wf(),
            forall|i2: int| 0 <= i2 < signed@.len() ==> (#[trigger] signed@[i2]).wf(),
            all_usable_blinded(blinded@),
            all_usable_signed(signed@),
            is_point(m@),
            is_point(z@),
            m@ == spec_lincomb(cv.take(i as int), bv.take(i as int)),
            z@ == spec_lincomb(cv.take(i as int), wv.take(i as int)),
            forall|kk: nat|
                (forall|j: int| 0 <= j < i ==> wv[j] == spec_pt_mul(kk, bv[j])) ==> z@
                    == #[trigger] spec_pt_mul(kk, m@),
        decreases blinded@.len() - i,
    {
        let mi = pt_mul(cs[i].as_slice(), blinded[i].point.as_slice());
        let zi = pt_mul(cs[i].as_slice(), signed[i].point.as_slice());
        let m2 = pt_add(m.as_slice(), mi.as_slice());
        let z2 = pt_add(z.as_slice(), zi.as_slice());
        proof {
            lemma_lincomb_step(cv, bv, i as int);
            lemma_lincomb_step(cv, wv, i as int);
            assert(m2@ == spec_lincomb(cv.take(i as int + 1), bv.take(i as int + 1)));
            assert(z2@ == spec_lincomb(cv.take(i as int + 1), wv.take(i as int + 1)));
            assert forall|kk: nat|
                (forall|j: int| 0 <= j < i + 1 ==> wv[j] == spec_pt_mul(kk, bv[j])) implies z2@
                == #[trigger] spec_pt_mul(kk, m2@) by {
                assert(forall|j: int| 0 <= j < i ==> wv[j] == spec_pt_mul(kk, bv[j]));
                assert(z@ == spec_pt_mul(kk, m@));
                assert(wv[i as int] == spec_pt_mul(kk, bv[i as int]));
                assert(zi@ == spec_pt_mul(kk, spec_pt_mul(cv[i as int], bv[i as int])));
                assert(zi@ == spec_pt_mul(kk, mi@));
                assert(z2@ == spec_pt_mul(kk, spec_pt_add(m@, mi@)));
            }
        }
        m = m2;
        z = z2;
        i = i + 1;
    }
    proof {
        assert(cv.take(blinded@.len() as int) =~= cv);
        assert(bv.take(blinded@.len() as int) =~= bv);
        assert(wv.take(signed@.len() as int) =~= wv);
    }
    (m, z)
}

/// The challenge scalar over the basepoint, public key, composites and
/// commitments.
fn challenge_scalar(y: &[u8], m: &[u8], z: &[u8], a1: &[u8], b1: &[u8]) -> (r: Vec<u8>)
    ensures
        is_scalar(r@),
        le_val(r@) == spec_challenge(y@, m@, z@, a1@, b1@),
{
    let g = basepoint();
    let buf: Vec<u8> = Vec::new();
    let buf = push_all(buf, g.as_slice());
    let buf = push_all(buf, y);
    let buf = push_all(buf, m);
    let buf = push_all(buf, z);
    let buf = push_all(buf, a1);
    let buf = push_all(buf, b1);
    proof {
        assert(buf@ =~= basepoint_bytes() + y@ + m@ + z@ + a1@ + b1@);
    }
    let digest = sha512(buf.as_slice());
    sc_from_wide(digest.as_slice())
}

/// A zero-knowledge proof that one secret key signed a whole batch:
/// challenge and response of a Schnorr proof over the batched relation.
pub struct BatchDLEQProof {
    /// The Fiat-Shamir challenge scalar.
    pub challenge: Vec<u8>,
    /// The Schnorr response scalar.
    pub response: Vec<u8>,
}

impl BatchDLEQProof {
    /// Challenge and response are canonical scalars.
    pub open spec fn wf(&self) -> bool {
        is_scalar(self.challenge@) && is_scalar(self.response@)
    }

    /// Constructs the batch proof for blinded tokens signed under
    /// `signing_key`.
    #[verifier::rlimit(100)]
    pub fn create(
        blinded_tokens: &Vec<BlindedToken>,
        signed_tokens: &Vec<SignedToken>,
        signing_key: &SigningKey,
    ) -> (r: Result<BatchDLEQProof, TokenError>)
        requires
            signing_key.wf(),
            forall|i: int| 0 <= i < blinded_tokens@.len() ==> (#[trigger] blinded_tokens@[i]).wf(),
            forall|i: int| 0 <= i < signed_tokens@.len() ==> (#[trigger] signed_tokens@[i]).wf(),
        ensures
            blinded_tokens@.len() != signed_tokens@.len() ==> r == Err::<
                BatchDLEQProof,
                TokenError,
            >(TokenError::LengthMismatch),
            blinded_tokens@.len() == signed_tokens@.len() && blinded_tokens@.len() == 0 ==> r
                == Err::<BatchDLEQProof, TokenError>(TokenError::EmptyBatch),
            blinded_tokens@.len() == signed_tokens@.len() && blinded_tokens@.len() > 0 && !(
            all_usable_blinded(blinded_tokens@) && all_usable_signed(signed_tokens@)) ==> r == Err::<
                BatchDLEQProof,
                TokenError,
            >(TokenError::InvalidGroupElement),
            blinded_tokens@.len() == signed_tokens@.len() && blinded_tokens@.len() > 0
                && all_usable_blinded(blinded_tokens@) && all_usable_signed(signed_tokens@) ==> (
            r matches Err(e) ==> e == TokenError::RandomSourceFailure),
            r matches Ok(p) ==> {
                &&& p.wf()
                &&& blinded_tokens@.len() == signed_tokens@.len()
                &&& blinded_tokens@.len() > 0
                &&& all_usable_blinded(blinded_tokens@)
                &&& all_usable_signed(signed_tokens@)
                &&& proof_has_honest_shape(
                    p,
                    blinded_views(blinded_tokens@),
                    signed_views(signed_tokens@),
                    signing_key.public_key.point@,
                    le_val(signing_key.secret@),
                )
            },
    {
        if blinded_tokens.len() != signed_tokens.len() {
            return Err(TokenError::LengthMismatch);
        }
        if blinded_tokens.len() == 0 {
            return Err(TokenError::EmptyBatch);
        }
        if !check_blinded_usable(blinded_tokens) {
            return Err(TokenError::InvalidGroupElement);
        }
        if !check_signed_usable(signed_tokens) {
            return Err(TokenError::InvalidGroupElement);
        }
        let th = transcript_hash(
            blinded_tokens,
            signed_tokens,
            signing_key.public_key.point.as_slice(),
        );
        let cs = batch_coeffs(&th, blinded_tokens.len());
        proof {
            assert(coeff_vals(cs@) =~= spec_coeffs(th@, blinded_tokens@.len()));
        }
        let (m, z) = lincomb_pair(&cs, blinded_tokens, signed_tokens);
        let nonce_wide = match fill_random(64) {
            Some(b) => b,
            None => {
                return Err(TokenError::RandomSourceFailure);
            },
        };
        let nonce = sc_from_wide(nonce_wide.as_slice());
        let g = basepoint();
        let a1 = pt_mul(nonce.as_slice(), g.as_slice());
        let b1 = pt_mul(nonce.as_slice(), m.as_slice());
        let c = challenge_scalar(
            signing_key.public_key.point.as_slice(),
            m.as_slice(),
            z.as_slice(),
            a1.as_slice(),
            b1.as_slice(),
        );
        let s = sc_add(
            nonce.as_slice(),
            sc_mul(c.as_slice(), signing_key.secret.as_slice()).as_slice(),
        );
        let proof_out = BatchDLEQProof { challenge: c, response: s };
        proof {
            let nv = le_val(nonce@);
            let ghost bv = blinded_views(blinded_tokens@);
            let ghost wv = signed_views(signed_tokens@);
            let ghost yv = signing_key.public_key.point@;
            let ghost kv = le_val(signing_key.secret@);
            assert(th@ == spec_sha512(spec_transcript(bv, wv, yv)));
            assert(m@ == spec_lincomb(spec_coeffs(th@, bv.len()), bv));
            assert(z@ == spec_lincomb(spec_coeffs(th@, bv.len()), wv));
            assert(a1@ == spec_pt_mul(nv, basepoint_bytes()));
            assert(b1@ == spec_pt_mul(nv, m@));
            assert(le_val(c@) == spec_challenge(yv, m@, z@, a1@, b1@));
            assert(le_val(s@) == sc_addv(nv, sc_mulv(le_val(c@), kv)));
            assert(spec_proof_of(
                le_val(proof_out.challenge@),
                le_val(proof_out.response@),
                blinded_views(blinded_tokens@),
                signed_views(signed_tokens@),
                signing_key.public_key.point@,
                le_val(signing_key.secret@),
                nv,
            ));
            assert(proof_out.wf());
            assert(proof_has_honest_shape(proof_out, bv, wv, yv, kv));
        }
        Ok(proof_out)
    }

    /// Checks the batch proof and, only on success, unblinds the whole batch
    /// in order.  Tokens are released to the caller exclusively through this
    /// check.
    pub fn verify_and_unblind(
        &self,
        tokens: &Vec<Token>,
        blinded_tokens: &Vec<BlindedToken>,
        signed_tokens: &Vec<SignedToken>,
        public_key: &PublicKey,
    ) -> (r: Result<Vec<UnblindedToken>, TokenError>)
        requires
            self.wf(),
            public_key.wf(),
            forall|i: int| 0 <= i < tokens@.len() ==> (#[trigger] tokens@[i]).wf(),
            forall|i: int| 0 <= i < blinded_tokens@.len() ==> (#[trigger] blinded_tokens@[i]).wf(),
            forall|i: int| 0 <= i < signed_tokens@.len() ==> (#[trigger] signed_tokens@[i]).wf(),
        ensures
            tokens@.len() != blinded_tokens@.len() || blinded_tokens@.len()
                != signed_tokens@.len() ==> r == Err::<Vec<UnblindedToken>, TokenError>(
                TokenError::LengthMismatch,
            ),
            tokens@.len() == blinded_tokens@.len() && blinded_tokens@.len() == signed_tokens@.len()
                && tokens@.len() == 0 ==> r == Err::<Vec<UnblindedToken>, TokenError>(
                TokenError::EmptyBatch,
            ),
            tokens@.len() == blinded_tokens@.len() && blinded_tokens@.len() == signed_tokens@.len()
                && tokens@.len() > 0 && !(is_usable_pt(public_key.point@) && all_usable_blinded(
                blinded_tokens@,
            ) && all_usable_signed(signed_tokens@)) ==> r == Err::<Vec<UnblindedToken>, TokenError>(
                TokenError::InvalidGroupElement,
            ),
            tokens@.len() == blinded_tokens@.len() && blinded_tokens@.len() == signed_tokens@.len()
                && tokens@.len() > 0 && is_usable_pt(public_key.point@) && all_usable_blinded(
                blinded_tokens@,
            ) && all_usable_signed(signed_tokens@) ==> (r is Ok <==> spec_verify(
                le_val(self.challenge@),
                le_val(self.response@),
                blinded_views(blinded_tokens@),
                signed_views(signed_tokens@),
                public_key.point@,
            )),
            tokens@.len() == blinded_tokens@.len() && blinded_tokens@.len() == signed_tokens@.len()
                && tokens@.len() > 0 && is_usable_pt(public_key.point@) && all_usable_blinded(
                blinded_tokens@,
            ) && all_usable_signed(signed_tokens@) && !spec_verify(
                le_val(self.challenge@),
                le_val(self.response@),
                blinded_views(blinded_tokens@),
                signed_views(signed_tokens@),
                public_key.point@,
            ) ==> r == Err::<Vec<UnblindedToken>, TokenError>(TokenError::ProofVerificationFailed),
            r matches Ok(us) ==> {
                &&& us@.len() == tokens@.len()
                &&& forall|i: int|
                    0 <= i < us@.len() ==> (#[trigger] us@[i]).wf() && us@[i].t.bytes@
                        == tokens@[i].preimage.bytes@
                &&& forall|i: int, a: nat, q: Seq<u8>|
                    0 <= i < us@.len() && a < group_order() && signed_views(signed_tokens@)[i]
                        == #[trigger] spec_pt_mul(
                        sc_mulv(a, le_val(tokens@[i].blinding@)),
                        q,
                    ) ==> us@[i].w@ == spec_pt_mul(a, q)
            },
            forall|k: nat, n: nat|
                honest_batch(
                    tokens@,
                    blinded_views(blinded_tokens@),
                    signed_views(signed_tokens@),
                    public_key.point@,
                    le_val(self.challenge@),
                    le_val(self.response@),
                    k,
                    n,
                ) ==> spec_verify(
                    le_val(self.challenge@),
                    le_val(self.response@),
                    blinded_views(blinded_tokens@),
                    signed_views(signed_tokens@),
                    public_key.point@,
                ),
    {
        let ghost bv = blinded_views(blinded_tokens@);
        let ghost wv = signed_views(signed_tokens@);
        let ghost yv = public_key.point@;
        let ghost cval = le_val(self.challenge@);
        let ghost sval = le_val(self.response@);
        if tokens.len() != blinded_tokens.len() || blinded_tokens.len() != signed_tokens.len() {
            return Err(TokenError::LengthMismatch);
        }
        if tokens.len() == 0 {
            return Err(TokenError::EmptyBatch);
        }
        if !pt_validate(public_key.point.as_slice()) || bytes_all_zero(
            public_key.point.as_slice(),
        ) {
            return Err(TokenError::InvalidGroupElement);
        }
        if !check_blinded_usable(blinded_tokens) {
            proof {
                assert forall|k: nat, n: nat|
                    honest_batch(tokens@, bv, wv, yv, cval, sval, k, n) implies spec_verify(
                    cval,
                    sval,
                    bv,
                    wv,
                    yv,
                ) by {
                    let j = choose|j: int|
                        0 <= j < blinded_tokens@.len() && !is_usable_pt(
                            #[trigger] blinded_tokens@[j].point@,
                        );
                    assert(bv[j] == blinded_tokens@[j].point@);
                    assert(is_usable_pt(bv[j]));
                }
            }
            return Err(TokenError::InvalidGroupElement);
        }
        if !check_signed_usable(signed_tokens) {
            proof {
                assert forall|k: nat, n: nat|
                    honest_batch(tokens@, bv, wv, yv, cval, sval, k, n) implies spec_verify(
                    cval,
                    sval,
                    bv,
                    wv,
                    yv,
                ) by {
                    let j = choose|j: int|
                        0 <= j < signed_tokens@.len() && !is_usable_pt(
                            #[trigger] signed_tokens@[j].point@,
                        );
                    assert(bv[j] == blinded_tokens@[j].point@);
                    assert(wv[j] == signed_tokens@[j].point@);
                    assert(is_usable_pt(wv[j]));
                }
            }
            return Err(TokenError::InvalidGroupElement);
        }
        let th = transcript_hash(blinded_tokens, signed_tokens, public_key.point.as_slice());
        let cs = batch_coeffs(&th, blinded_tokens.len());
        proof {
            assert(coeff_vals(cs@) =~= spec_coeffs(th@, blinded_tokens@.len()));
        }
        let (m, z) = lincomb_pair(&cs, blinded_tokens, signed_tokens);
        let neg_c = sc_neg(self.challenge.as_slice());
        let g = basepoint();
        let sg = pt_mul(self.response.as_slice(), g.as_slice());
        let ey = pt_mul(neg_c.as_slice(), public_key.point.as_slice());
        let a1 = pt_add(sg.as_slice(), ey.as_slice());
        let sm = pt_mul(self.response.as_slice(), m.as_slice());
        let ez = pt_mul(neg_c.as_slice(), z.as_slice());
        let b1 = pt_add(sm.as_slice(), ez.as_slice());
        let e1 = challenge_scalar(
            public_key.point.as_slice(),
            m.as_slice(),
            z.as_slice(),
            a1.as_slice(),
            b1.as_slice(),
        );
        let ok = ct_eq(e1.as_slice(), self.challenge.as_slice());
        proof {
            // the recomputed challenge value is exactly the one the
            // verification equation compares against
            assert(a1@ == spec_pt_add(
                spec_pt_mul(sval, basepoint_bytes()),
                spec_pt_mul(sc_negv(cval), yv),
            ));
            assert(b1@ == spec_pt_add(
                spec_pt_mul(sval, m@),
                spec_pt_mul(sc_negv(cval), z@),
            ));
            assert(ok <==> spec_verify(cval, sval, bv, wv, yv)) by {
                if ok {
                    assert(le_val(e1@) == cval);
                } else {
                    if spec_verify(cval, sval, bv, wv, yv) {
                        assert(le_val(e1@) == cval);
                        lemma_le_val_injective(e1@, self.challenge@);
                        assert(false);
                    }
                }
            }
            // an honestly created proof always passes
            assert forall|k: nat, n: nat|
                honest_batch(tokens@, bv, wv, yv, cval, sval, k, n) implies spec_verify(
                cval,
                sval,
                bv,
                wv,
                yv,
            ) by {
                // Z == k * M from the linear-combination law
                assert(forall|j: int| 0 <= j < wv.len() ==> wv[j] == spec_pt_mul(k, bv[j]));
                assert(z@ == spec_pt_mul(k, m@));
                // the commitment A is recovered: s*G + (-c)*(k*G) == n*G
                assert(ey@ == spec_pt_mul(sc_mulv(sc_negv(cval), k), basepoint_bytes()));
                assert(a1@ == spec_pt_mul(
                    sc_addv(sval, sc_mulv(sc_negv(cval), k)),
                    basepoint_bytes(),
                ));
                lemma_schnorr_response(n, cval, k);
                assert(sc_addv(sval, sc_mulv(sc_negv(cval), k)) == n);
                // the commitment B is recovered: s*M + (-c)*(k*M) == n*M
                assert(ez@ == spec_pt_mul(sc_mulv(sc_negv(cval), k), m@));
                assert(b1@ == spec_pt_mul(sc_addv(sval, sc_mulv(sc_negv(cval), k)), m@));
                assert(a1@ == spec_pt_mul(n, basepoint_bytes()));
                assert(b1@ == spec_pt_mul(n, m@));
            }
        }
        if !ok {
            return Err(TokenError::ProofVerificationFailed);
        }
        let mut us: Vec<UnblindedToken> = Vec::new();
        let mut i: usize = 0;
        while i < tokens.len()
            invariant
                i <= tokens@.len(),
                us@.len() == i,
                tokens@.len() == signed_tokens@.len(),
                wv == signed_views(signed_tokens@),
                forall|i2: int| 0 <= i2 < tokens@.len() ==> (#[trigger] tokens@[i2]).wf(),
                forall|i2: int| 0 <= i2 < signed_tokens@.len() ==> (#[trigger] signed_tokens@[i2]).wf(),
                all_usable_signed(signed_tokens@),
                forall|j: int|
                    0 <= j < i ==> (#[trigger] us@[j]).wf() && us@[j].t.bytes@
                        == tokens@[j].preimage.bytes@,
                forall|j: int, a: nat, q: Seq<u8>|
                    0 <= j < i && a < group_order() && wv[j] == #[trigger] spec_pt_mul(
                        sc_mulv(a, le_val(tokens@[j].blinding@)),
                        q,
                    ) ==> us@[j].w@ == spec_pt_mul(a, q),
            decreases tokens@.len() - i,
        {
            let u = unblind(&tokens[i], &signed_tokens[i]);
            us.push(u);
            i = i + 1;
        }
        Ok(us)
    }
}

/// Law: a batch of well-formed tokens, blinded and signed under one signing
/// key, always yields a passing proof whose verification returns exactly the
/// unblinded tokens that the server would rederive from the preimages.  The
/// only possible failures are an unavailable random source and a preimage
/// that hashes to the identity element, whose blinded form the server
/// refuses to sign.
pub fn batch_round_trip(tokens: &Vec<Token>, signing_key: &SigningKey) -> (r: Result<
    Vec<UnblindedToken>,
    TokenError,
>)
    requires
        signing_key.wf(),
        tokens@.len() > 0,
        forall|i: int| 0 <= i < tokens@.len() ==> (#[trigger] tokens@[i]).wf(),
    ensures
        r matches Err(e) ==> e == TokenError::RandomSourceFailure || (e
            == TokenError::InvalidGroupElement && exists|i: int|
            0 <= i < tokens@.len() && le_val(spec_h2g(#[trigger] tokens@[i].preimage.bytes@))
                == 0),
        r matches Ok(us) ==> {
            &&& us@.len() == tokens@.len()
            &&& forall|i: int|
                0 <= i < us@.len() ==> (#[trigger] us@[i]).wf() && us@[i].t.bytes@
                    == tokens@[i].preimage.bytes@ && us@[i].w@ == spec_pt_mul(
                    le_val(signing_key.secret@),
                    spec_h2g(tokens@[i].preimage.bytes@),
                )
        },
{
    let ghost k = le_val(signing_key.secret@);
    let mut blinded: Vec<BlindedToken> = Vec::new();
    let mut signed: Vec<SignedToken> = Vec::new();
    let mut i: usize = 0;
    while i < tokens.len()
        invariant
            i <= tokens@.len(),
            k == le_val(signing_key.secret@),
            signing_key.wf(),
            forall|i2: int| 0 <= i2 < tokens@.len() ==> (#[trigger] tokens@[i2]).wf(),
            blinded@.len() == i,
            signed@.len() == i,
            forall|j: int|
                0 <= j < i ==> {
                    &&& (#[trigger] blinded@[j]).wf()
                    &&& is_usable_pt(blinded@[j].point@)
                    &&& blinded@[j].point@ == spec_pt_mul(
                        le_val(tokens@[j].blinding@),
                        spec_h2g(tokens@[j].preimage.bytes@),
                    )
                },
            forall|j: int|
                0 <= j < i ==> {
                    &&& (#[trigger] signed@[j]).wf()
                    &&& is_usable_pt(signed@[j].point@)
                    &&& signed@[j].point@ == spec_pt_mul(k, blinded@[j].point@)
                    &&& signed@[j].point@ == spec_pt_mul(
                        sc_mulv(k, le_val(tokens@[j].blinding@)),
                        spec_h2g(tokens@[j].preimage.bytes@),
                    )
                },
        decreases tokens@.len() - i,
    {
        let b = tokens[i].blind();
        let w = match signing_key.sign(&b) {
            Ok(w) => w,
            Err(e) => {
                proof {
                    assert(le_val(spec_h2g(tokens@[i as int].preimage.bytes@)) == 0);
                }
                return Err(e);
            },
        };
        blinded.push(b);
        signed.push(w);
        i = i + 1;
    }
    let proof_result = BatchDLEQProof::create(&blinded, &signed, signing_key);
    let batch_proof = match proof_result {
        Ok(p) => p,
        Err(e) => {
            proof {
                assert(all_usable_blinded(blinded@));
                assert(all_usable_signed(signed@));
            }
            return Err(e);
        },
    };
    let public_key = signing_key.public_key();
    proof {
        let cval = le_val(batch_proof.challenge@);
        let sval = le_val(batch_proof.response@);
        let bv = blinded_views(blinded@);
        let wv = signed_views(signed@);
        assert(proof_has_honest_shape(batch_proof, bv, wv, signing_key.public_key.point@, k));
        let n0 = choose|n: nat|
            spec_proof_of(cval, sval, bv, wv, signing_key.public_key.point@, k, n);
        assert(honest_batch(
            tokens@,
            bv,
            wv,
            signing_key.public_key.point@,
            cval,
            sval,
            k,
            n0,
        ));
    }
    let unblinded = batch_proof.verify_and_unblind(tokens, &blinded, &signed, &public_key);
    match unblinded {
        Err(_) => vstd::pervasive::unreached(),
        Ok(us) => {
            proof {
                assert forall|i2: int| 0 <= i2 < us@.len() implies (#[trigger] us@[i2]).wf()
                    && us@[i2].t.bytes@ == tokens@[i2].preimage.bytes@ && us@[i2].w@ == spec_pt_mul(
                    k,
                    spec_h2g(tokens@[i2].preimage.bytes@),
                ) by {
                    assert(signed_views(signed@)[i2] == signed@[i2].point@);
                    assert(signed@[i2].point@ == spec_pt_mul(
                        sc_mulv(k, le_val(tokens@[i2].blinding@)),
                        spec_h2g(tokens@[i2].preimage.bytes@),
                    ));
                }
            }
            Ok(us)
        },
    }
}

} // verus!
