//! The text encoding layer: canonical byte serialization for every protocol
//! value, its printable base64 form, and the flattened batch interface that
//! takes comma-joined encoded lists.

use vstd::prelude::*;
use crate::bytes::{bytes_all_zero, copy_bytes, copy_range, le_val};
use crate::dleq::{
    all_usable_blinded, all_usable_signed, blinded_views, honest_batch, proof_has_honest_shape,
    signed_views, spec_verify, BatchDLEQProof,
};
use crate::errors::TokenError;
use crate::group::{basepoint, is_usable_pt, pt_mul, sc_mulv, sc_validate, spec_h2g, spec_pt_mul};
use crate::voprf::{
    BlindedToken, PublicKey, SignedToken, SigningKey, Token, TokenPreimage, UnblindedToken,
    VerificationSignature,
};

verus! {

/// A protocol value with a canonical byte serialization.
///
/// Decoding rejects malformed input with `InvalidEncoding` and accepts every
/// canonical encoding of a well-formed value.
pub trait Serializable: Sized {
    /// The values the protocol considers well-formed.
    spec fn wf_value(&self) -> bool;

    /// The canonical byte serialization.
    spec fn spec_bytes(&self) -> Seq<u8>;

    /// Serializes the value canonically.
    fn to_bytes(&self) -> (r: Vec<u8>)
        requires
            self.wf_value(),
        ensures
            r@ == self.spec_bytes(),
    ;

    /// Deserializes a value, rejecting malformed bytes.
    fn from_bytes(b: &[u8]) -> (r: Result<Self, TokenError>)
        ensures
            r matches Ok(x) ==> x.wf_value() && x.spec_bytes() == b@,
            forall|x: Self| x.wf_value() && #[trigger] x.spec_bytes() == b@ ==> r is Ok,
            r matches Err(e) ==> e == TokenError::InvalidEncoding,
    ;
}

/// What base64 encoding returns for a byte string.
pub uninterp spec fn spec_b64(b: Seq<u8>) -> Seq<char>;

/// Relies on base64's standard engine: a deterministic printable encoding
/// whose alphabet and padding contain no comma.
#[verifier::external_body]
pub fn b64_encode(b: &[u8]) -> (r: String)
    ensures
        r@ == spec_b64(b@),
        !r@.contains(','),
{
    base64::Engine::encode(&base64::engine::general_purpose::STANDARD, b)
}

/// Relies on base64's standard engine decode, which requires canonical
/// padding and zero trailing bits: it accepts exactly the encodings that
/// `encode` produces, and inverts it there.
#[verifier::external_body]
pub fn b64_decode(s: &str) -> (r: Result<Vec<u8>, TokenError>)
    ensures
        r matches Ok(b) ==> s@ == spec_b64(b@) && (forall|b2: Seq<u8>|
            s@ == spec_b64(b2) ==> b2 == b@),
        forall|b: Seq<u8>| s@ == spec_b64(b) ==> r is Ok,
        r matches Err(e) ==> e == TokenError::InvalidEncoding,
{
    base64::Engine::decode(&base64::engine::general_purpose::STANDARD, s)
        .map_err(|_| TokenError::InvalidEncoding)
}

/// Encodes a protocol value to its printable form.
pub fn encode_base64<T: Serializable>(x: &T) -> (r: String)
    requires
        x.wf_value(),
    ensures
        r@ == spec_b64(x.spec_bytes()),
        !r@.contains(','),
{
    let b = x.to_bytes();
    b64_encode(b.as_slice())
}

/// Decodes a protocol value from its printable form, rejecting malformed
/// input rather than defaulting.
pub fn decode_base64<T: Serializable>(s: &str) -> (r: Result<T, TokenError>)
    ensures
        r matches Ok(x) ==> x.wf_value() && s@ == spec_b64(x.spec_bytes()) && (forall|b2: Seq<u8>|
            s@ == #[trigger] spec_b64(b2) ==> b2 == x.spec_bytes()),
        forall|x: T| x.wf_value() && s@ == spec_b64(#[trigger] x.spec_bytes()) ==> r is Ok,
        r matches Err(e) ==> e == TokenError::InvalidEncoding,
{
    let bytes = match b64_decode(s) {
        Ok(b) => b,
        Err(e) => {
            return Err(e);
        },
    };
    T::from_bytes(bytes.as_slice())
}

/// Law: decoding the encoding of any well-formed protocol value succeeds and
/// returns a value with the same canonical bytes.
pub fn encode_decode_round_trip<T: Serializable>(x: &T) -> (r: Result<T, TokenError>)
    requires
        x.wf_value(),
    ensures
        r is Ok,
        r matches Ok(y) ==> y.wf_value() && y.spec_bytes() == x.spec_bytes(),
{
    let s = encode_base64(x);
    let r = decode_base64::<T>(s.as_str());
    proof {
        assert(s@ == spec_b64(x.spec_bytes()));
    }
    r
}

impl Serializable for TokenPreimage {
    open spec fn wf_value(&self) -> bool {
        self.wf()
    }

    open spec fn spec_bytes(&self) -> Seq<u8> {
        self.bytes@
    }

    fn to_bytes(&self) -> (r: Vec<u8>) {
        copy_bytes(self.bytes.as_slice())
    }

    fn from_bytes(b: &[u8]) -> (r: Result<Self, TokenError>) {
        if b.len() != 64 {
            return Err(TokenError::InvalidEncoding);
        }
        Ok(TokenPreimage { bytes: copy_bytes(b) })
    }
}

impl Serializable for Token {
    open spec fn wf_value(&self) -> bool {
        self.wf()
    }

    open spec fn spec_bytes(&self) -> Seq<u8> {
        self.preimage.bytes@ + self.blinding@
    }

    fn to_bytes(&self) -> (r: Vec<u8>) {
        let mut out = copy_bytes(self.preimage.bytes.as_slice());
        let blinding = copy_bytes(self.blinding.as_slice());
        out = crate::bytes::push_all(out, blinding.as_slice());
        out
    }

    fn from_bytes(b: &[u8]) -> (r: Result<Self, TokenError>) {
        if b.len() != 96 {
            assert(forall|x: Token|
                x.wf_value() ==> (#[trigger] x.spec_bytes()).len() == 96);
            return Err(TokenError::InvalidEncoding);
        }
        let t = copy_range(b, 0, 64);
        let blinding = copy_range(b, 64, 96);
        proof {
            assert forall|x: Token| x.wf_value() && x.spec_bytes() == b@ implies x.blinding@
                == blinding@ by {
                assert(x.blinding@ =~= b@.subrange(64, 96));
            }
        }
        if !sc_validate(blinding.as_slice()) {
            return Err(TokenError::InvalidEncoding);
        }
        if bytes_all_zero(blinding.as_slice()) {
            return Err(TokenError::InvalidEncoding);
        }
        let tok = Token { preimage: TokenPreimage { bytes: t }, blinding };
        proof {
            assert(tok.spec_bytes() =~= b@);
        }
        Ok(tok)
    }
}

impl Serializable for BlindedToken {
    open spec fn wf_value(&self) -> bool {
        self.wf()
    }

    open spec fn spec_bytes(&self) -> Seq<u8> {
        self.point@
    }

    fn to_bytes(&self) -> (r: Vec<u8>) {
        copy_bytes(self.point.as_slice())
    }

    fn from_bytes(b: &[u8]) -> (r: Result<Self, TokenError>) {
        if b.len() != 32 {
            return Err(TokenError::InvalidEncoding);
        }
        Ok(BlindedToken { point: copy_bytes(b) })
    }
}

impl Serializable for PublicKey {
    open spec fn wf_value(&self) -> bool {
        self.wf()
    }

    open spec fn spec_bytes(&self) -> Seq<u8> {
        self.point@
    }

    fn to_bytes(&self) -> (r: Vec<u8>) {
        copy_bytes(self.point.as_slice())
    }

    fn from_bytes(b: &[u8]) -> (r: Result<Self, TokenError>) {
        if b.len() != 32 {
            return Err(TokenError::InvalidEncoding);
        }
        Ok(PublicKey { point: copy_bytes(b) })
    }
}

impl Serializable for SignedToken {
    open spec fn wf_value(&self) -> bool {
        self.wf()
    }

    open spec fn spec_bytes(&self) -> Seq<u8> {
        self.point@
    }

    fn to_bytes(&self) -> (r: Vec<u8>) {
        copy_bytes(self.point.as_slice())
    }

    fn from_bytes(b: &[u8]) -> (r: Result<Self, TokenError>) {
        if b.len() != 32 {
            return Err(TokenError::InvalidEncoding);
        }
        Ok(SignedToken { point: copy_bytes(b) })
    }
}

impl Serializable for SigningKey {
    open spec fn wf_value(&self) -> bool {
        self.wf()
    }

    open spec fn spec_bytes(&self) -> Seq<u8> {
        self.secret@
    }

    fn to_bytes(&self) -> (r: Vec<u8>) {
        copy_bytes(self.secret.as_slice())
    }

    fn from_bytes(b: &[u8]) -> (r: Result<Self, TokenError>) {
        if b.len() != 32 {
            return Err(TokenError::InvalidEncoding);
        }
        if !sc_validate(b) {
            return Err(TokenError::InvalidEncoding);
        }
        if bytes_all_zero(b) {
            return Err(TokenError::InvalidEncoding);
        }
        let secret = copy_bytes(b);
        let g = basepoint();
        let y = pt_mul(secret.as_slice(), g.as_slice());
        Ok(SigningKey { secret, public_key: PublicKey { point: y } })
    }
}

impl Serializable for UnblindedToken {
    open spec fn wf_value(&self) -> bool {
        self.wf()
    }

    open spec fn spec_bytes(&self) -> Seq<u8> {
        self.t.bytes@ + self.w@
    }

    fn to_bytes(&self) -> (r: Vec<u8>) {
        let mut out = copy_bytes(self.t.bytes.as_slice());
        let w = copy_bytes(self.w.as_slice());
        out = crate::bytes::push_all(out, w.as_slice());
        out
    }

    fn from_bytes(b: &[u8]) -> (r: Result<Self, TokenError>) {
        if b.len() != 96 {
            assert(forall|x: UnblindedToken|
                x.wf_value() ==> (#[trigger] x.spec_bytes()).len() == 96);
            return Err(TokenError::InvalidEncoding);
        }
        let t = copy_range(b, 0, 64);
        let w = copy_range(b, 64, 96);
        let u = UnblindedToken { t: TokenPreimage { bytes: t }, w };
        proof {
            assert(u.spec_bytes() =~= b@);
        }
        Ok(u)
    }
}

impl Serializable for VerificationSignature {
    open spec fn wf_value(&self) -> bool {
        self.wf()
    }

    open spec fn spec_bytes(&self) -> Seq<u8> {
        self.bytes@
    }

    fn to_bytes(&self) -> (r: Vec<u8>) {
        copy_bytes(self.bytes.as_slice())
    }

    fn from_bytes(b: &[u8]) -> (r: Result<Self, TokenError>) {
        if b.len() != 64 {
            return Err(TokenError::InvalidEncoding);
        }
        Ok(VerificationSignature { bytes: copy_bytes(b) })
    }
}

impl Serializable for BatchDLEQProof {
    open spec fn wf_value(&self) -> bool {
        self.wf()
    }

    open spec fn spec_bytes(&self) -> Seq<u8> {
        self.challenge@ + self.response@
    }

    fn to_bytes(&self) -> (r: Vec<u8>) {
        let mut out = copy_bytes(self.challenge.as_slice());
        let response = copy_bytes(self.response.as_slice());
        out = crate::bytes::push_all(out, response.as_slice());
        out
    }

    fn from_bytes(b: &[u8]) -> (r: Result<Self, TokenError>) {
        if b.len() != 64 {
            assert(forall|x: BatchDLEQProof|
                x.wf_value() ==> (#[trigger] x.spec_bytes()).len() == 64);
            return Err(TokenError::InvalidEncoding);
        }
        let challenge = copy_range(b, 0, 32);
        let response = copy_range(b, 32, 64);
        proof {
            assert forall|x: BatchDLEQProof| x.wf_value() && x.spec_bytes() == b@ implies
                x.challenge@ == challenge@ && x.response@ == response@ by {
                assert(x.challenge@ =~= b@.subrange(0, 32));
                assert(x.response@ =~= b@.subrange(32, 64));
            }
        }
        if !sc_validate(challenge.as_slice()) {
            return Err(TokenError::InvalidEncoding);
        }
        if !sc_validate(response.as_slice()) {
            return Err(TokenError::InvalidEncoding);
        }
        let p = BatchDLEQProof { challenge, response };
        proof {
            assert(p.spec_bytes() =~= b@);
        }
        Ok(p)
    }
}

/// The comma-join of a list of character sequences.
pub open spec fn spec_join(parts: Seq<Seq<char>>) -> Seq<char>
    decreases parts.len(),
{
    if parts.len() == 0 {
        Seq::empty()
    } else if parts.len() == 1 {
        parts[0]
    } else {
        spec_join(parts.drop_last()) + seq![','] + parts.last()
    }
}

/// The comma-joined printable encoding of a list of protocol values.
pub open spec fn spec_encoded_list<T: Serializable>(xs: Seq<T>) -> Seq<char> {
    spec_join(xs.map_values(|x: T| spec_b64(x.spec_bytes())))
}

/// No part of the list contains a comma.
pub open spec fn comma_free(parts: Seq<Seq<char>>) -> bool {
    forall|i: int| 0 <= i < parts.len() ==> !(#[trigger] parts[i]).contains(',')
}

/// A non-empty list of well-formed values, each of whose printable encodings
/// is comma-free; exactly what stands behind a comma-joined encoded list.
pub open spec fn wf_encoded_batch<T: Serializable>(xs: Seq<T>) -> bool {
    &&& xs.len() >= 1
    &&& forall|i: int|
        0 <= i < xs.len() ==> (#[trigger] xs[i]).wf_value() && !spec_b64(
            xs[i].spec_bytes(),
        ).contains(',')
}

/// The comma-join of two or more parts contains a comma.
proof fn lemma_join_has_comma(parts: Seq<Seq<char>>)
    requires
        parts.len() >= 2,
    ensures
        spec_join(parts).contains(','),
{
    let a = spec_join(parts.drop_last());
    let j = a.len() as int;
    assert(spec_join(parts) == a + seq![','] + parts.last());
    assert(spec_join(parts)[j] == ',');
}

/// Comma-free parts are recovered uniquely from their comma-join.
proof fn lemma_join_unique(p1: Seq<Seq<char>>, p2: Seq<Seq<char>>)
    requires
        p1.len() >= 1,
        p2.len() >= 1,
        comma_free(p1),
        comma_free(p2),
        spec_join(p1) == spec_join(p2),
    ensures
        p1 == p2,
    decreases p1.len(),
{
    if p1.len() == 1 && p2.len() == 1 {
        assert(p1 =~= p2);
    } else if p1.len() == 1 {
        lemma_join_has_comma(p2);
        assert(p1[0].contains(','));
        assert(false);
    } else if p2.len() == 1 {
        lemma_join_has_comma(p1);
        assert(p2[0].contains(','));
        assert(false);
    } else {
        let a = spec_join(p1.drop_last());
        let u = p1.last();
        let b = spec_join(p2.drop_last());
        let v = p2.last();
        let t = spec_join(p1);
        assert(t == a + seq![','] + u);
        assert(t == b + seq![','] + v);
        assert(t.len() == a.len() + 1 + u.len());
        assert(t.len() == b.len() + 1 + v.len());
        assert(!u.contains(','));
        assert(!v.contains(','));
        if a.len() < b.len() {
            let idx = b.len() - a.len() - 1;
            assert(t[b.len() as int] == ',');
            assert(t[b.len() as int] == u[idx as int]);
            assert(false);
        }
        if b.len() < a.len() {
            let idx = a.len() - b.len() - 1;
            assert(t[a.len() as int] == ',');
            assert(t[a.len() as int] == v[idx as int]);
            assert(false);
        }
        assert(u =~= v) by {
            assert(forall|i: int|
                0 <= i < u.len() ==> u[i] == t[a.len() + 1 + i] && v[i] == t[b.len() + 1 + i]);
        }
        assert(a =~= b) by {
            assert(forall|i: int| 0 <= i < a.len() ==> a[i] == t[i] && b[i] == t[i]);
        }
        assert(comma_free(p1.drop_last())) by {
            assert(forall|i: int|
                0 <= i < p1.len() - 1 ==> #[trigger] p1.drop_last()[i] == p1[i]);
        }
        assert(comma_free(p2.drop_last())) by {
            assert(forall|i: int|
                0 <= i < p2.len() - 1 ==> #[trigger] p2.drop_last()[i] == p2[i]);
        }
        lemma_join_unique(p1.drop_last(), p2.drop_last());
        assert(p1.len() == p2.len()) by {
            assert(p1.drop_last().len() == p2.drop_last().len());
        }
        assert forall|i: int| 0 <= i < p1.len() implies p1[i] == p2[i] by {
            if i < p1.len() - 1 {
                assert(p1[i] == p1.drop_last()[i]);
                assert(p2[i] == p2.drop_last()[i]);
                assert(p1.drop_last()[i] == p2.drop_last()[i]);
            } else {
                assert(p1[i] == u);
                assert(p2[i] == v);
            }
        }
        assert(p1 =~= p2);
    }
}

/// Relies on `str::split`: splitting on commas yields the comma-free parts
/// whose comma-join is the input (at least one part, possibly empty).
#[verifier::external_body]
fn split_commas(s: &str) -> (r: Vec<String>)
    ensures
        r@.len() >= 1,
        spec_join(r@.map_values(|p: String| p@)) == s@,
        forall|i: int| 0 <= i < r@.len() ==> !(#[trigger] r@[i]@).contains(','),
{
    s.split(',').map(|p| p.to_string()).collect()
}

/// Relies on `[String]::join`: interleaves the parts with commas.
#[verifier::external_body]
fn join_commas(parts: &Vec<String>) -> (r: String)
    requires
        parts@.len() >= 1,
    ensures
        r@ == spec_join(parts@.map_values(|p: String| p@)),
{
    parts.join(",")
}

/// Decodes a comma-joined list of encoded protocol values, propagating the
/// first failure instead of skipping malformed elements; succeeds on every
/// input whose parts all decode.
pub fn decode_list<T: Serializable>(s: &str) -> (r: Result<Vec<T>, TokenError>)
    ensures
        r matches Ok(v) ==> {
            &&& v@.len() >= 1
            &&& forall|i: int| 0 <= i < v@.len() ==> (#[trigger] v@[i]).wf_value()
            &&& spec_encoded_list(v@) == s@
            &&& wf_encoded_batch(v@)
        },
        r matches Err(e) ==> e == TokenError::InvalidEncoding,
        forall|xs: Seq<T>| #[trigger] wf_encoded_batch(xs) && s@ == spec_encoded_list(xs) ==> r
            is Ok,
        r matches Ok(v) ==> forall|xs: Seq<T>|
            #[trigger] wf_encoded_batch(xs) && s@ == spec_encoded_list(xs) ==> v@.len() == xs.len()
                && (forall|i: int| 0 <= i < xs.len() ==> v@[i].spec_bytes() == xs[i].spec_bytes()),
{
    let parts = split_commas(s);
    let ghost pviews = parts@.map_values(|p: String| p@);
    proof {
        assert(comma_free(pviews)) by {
            assert(forall|i: int|
                0 <= i < pviews.len() ==> #[trigger] pviews[i] == parts@[i]@);
        }
    }
    let mut out: Vec<T> = Vec::new();
    let mut i: usize = 0;
    while i < parts.len()
        invariant
            i <= parts@.len(),
            parts@.len() >= 1,
            pviews == parts@.map_values(|p: String| p@),
            comma_free(pviews),
            spec_join(pviews) == s@,
            out@.len() == i,
            forall|j: int| 0 <= j < i ==> (#[trigger] out@[j]).wf_value(),
            forall|j: int|
                0 <= j < i ==> spec_b64((#[trigger] out@[j]).spec_bytes()) == pviews[j],
            forall|j: int, b2: Seq<u8>|
                #![trigger pviews[j], spec_b64(b2)]
                0 <= j < i && pviews[j] == spec_b64(b2) ==> b2 == out@[j].spec_bytes(),
        decreases parts@.len() - i,
    {
        let x = match decode_base64::<T>(parts[i].as_str()) {
            Ok(x) => x,
            Err(e) => {
                proof {
                    assert forall|xs: Seq<T>|
                        #[trigger] wf_encoded_batch(xs) && s@ == spec_encoded_list(xs)
                            implies false by {
                        lemma_encoded_parts_agree(xs, pviews);
                        assert(pviews[i as int] == spec_b64(xs[i as int].spec_bytes()));
                        assert(xs[i as int].wf_value());
                    }
                }
                return Err(e);
            },
        };
        out.push(x);
        i = i + 1;
    }
    proof {
        assert(out@.map_values(|x: T| spec_b64(x.spec_bytes())) =~= pviews);
        assert forall|j: int| 0 <= j < out@.len() implies (#[trigger] out@[j]).wf_value()
            && !spec_b64(out@[j].spec_bytes()).contains(',') by {
            assert(spec_b64(out@[j].spec_bytes()) == pviews[j]);
            assert(!pviews[j].contains(','));
        }
        assert forall|xs: Seq<T>|
            #[trigger] wf_encoded_batch(xs) && s@ == spec_encoded_list(xs) implies out@.len()
            == xs.len() && (forall|i2: int|
            0 <= i2 < xs.len() ==> out@[i2].spec_bytes() == xs[i2].spec_bytes()) by {
            lemma_encoded_parts_agree(xs, pviews);
            assert forall|i2: int| 0 <= i2 < xs.len() implies out@[i2].spec_bytes()
                == xs[i2].spec_bytes() by {
                assert(pviews[i2] == spec_b64(xs[i2].spec_bytes()));
            }
        }
    }
    Ok(out)
}

/// If an encoded batch joins to the same string as some comma-free parts,
/// those parts are exactly the batch's encodings, in order.
proof fn lemma_encoded_parts_agree<T: Serializable>(xs: Seq<T>, pviews: Seq<Seq<char>>)
    requires
        wf_encoded_batch(xs),
        comma_free(pviews),
        pviews.len() >= 1,
        spec_join(pviews) == spec_encoded_list(xs),
    ensures
        pviews.len() == xs.len(),
        forall|i: int|
            0 <= i < xs.len() ==> #[trigger] pviews[i] == spec_b64(xs[i].spec_bytes()),
{
    let m = xs.map_values(|x: T| spec_b64(x.spec_bytes()));
    assert(comma_free(m)) by {
        assert(forall|i: int|
            0 <= i < m.len() ==> #[trigger] m[i] == spec_b64(xs[i].spec_bytes()));
    }
    lemma_join_unique(pviews, m);
}

/// Encodes a list of protocol values as a comma-joined printable string.
pub fn encode_list<T: Serializable>(xs: &Vec<T>) -> (r: String)
    requires
        xs@.len() >= 1,
        forall|i: int| 0 <= i < xs@.len() ==> (#[trigger] xs@[i]).wf_value(),
    ensures
        r@ == spec_encoded_list(xs@),
        wf_encoded_batch(xs@),
{
    let mut parts: Vec<String> = Vec::new();
    let mut i: usize = 0;
    while i < xs.len()
        invariant
            i <= xs@.len(),
            forall|i2: int| 0 <= i2 < xs@.len() ==> (#[trigger] xs@[i2]).wf_value(),
            parts@.len() == i,
            forall|j: int|
                0 <= j < i ==> (#[trigger] parts@[j])@ == spec_b64(xs@[j].spec_bytes())
                    && !spec_b64(xs@[j].spec_bytes()).contains(','),
        decreases xs@.len() - i,
    {
        parts.push(encode_base64(&xs[i]));
        i = i + 1;
    }
    let joined = join_commas(&parts);
    proof {
        assert(parts@.map_values(|p: String| p@) =~= xs@.map_values(
            |x: T| spec_b64(x.spec_bytes()),
        ));
        assert forall|j: int| 0 <= j < xs@.len() implies (#[trigger] xs@[j]).wf_value()
            && !spec_b64(xs@[j].spec_bytes()).contains(',') by {
            assert(parts@[j]@ == spec_b64(xs@[j].spec_bytes()));
        }
    }
    joined
}

/// Equal canonical bytes of well-formed tokens mean equal fields.
proof fn lemma_token_bytes_determine_fields(a: Token, b: Token)
    requires
        a.wf(),
        b.wf(),
        a.spec_bytes() == b.spec_bytes(),
    ensures
        a.preimage.bytes@ == b.preimage.bytes@,
        a.blinding@ == b.blinding@,
{
    assert forall|i: int| 0 <= i < 64 implies a.preimage.bytes@[i] == b.preimage.bytes@[i] by {
        assert(a.spec_bytes()[i] == a.preimage.bytes@[i]);
        assert(b.spec_bytes()[i] == b.preimage.bytes@[i]);
    }
    assert(a.preimage.bytes@ =~= b.preimage.bytes@);
    assert forall|i: int| 0 <= i < 32 implies a.blinding@[i] == b.blinding@[i] by {
        assert(a.spec_bytes()[64 + i] == a.blinding@[i]);
        assert(b.spec_bytes()[64 + i] == b.blinding@[i]);
    }
    assert(a.blinding@ =~= b.blinding@);
}

/// An honest batch stays honest when the tokens are replaced by tokens with
/// the same preimages and blinding scalars.
proof fn lemma_honest_batch_transfer(
    tv: Seq<Token>,
    toks: Seq<Token>,
    bv: Seq<Seq<u8>>,
    wv: Seq<Seq<u8>>,
    y: Seq<u8>,
    c: nat,
    sv: nat,
    k: nat,
    n: nat,
)
    requires
        tv.len() == toks.len(),
        forall|i: int|
            0 <= i < tv.len() ==> (#[trigger] tv[i]).preimage.bytes@ == toks[i].preimage.bytes@
                && tv[i].blinding@ == toks[i].blinding@,
        honest_batch(toks, bv, wv, y, c, sv, k, n),
    ensures
        honest_batch(tv, bv, wv, y, c, sv, k, n),
{
    assert forall|i: int| 0 <= i < bv.len() implies {
        &&& is_usable_pt(#[trigger] bv[i])
        &&& is_usable_pt(wv[i])
        &&& bv[i] == spec_pt_mul(le_val(tv[i].blinding@), spec_h2g(tv[i].preimage.bytes@))
        &&& wv[i] == spec_pt_mul(k, bv[i])
        &&& wv[i] == spec_pt_mul(
            sc_mulv(k, le_val(tv[i].blinding@)),
            spec_h2g(tv[i].preimage.bytes@),
        )
    } by {
        assert(tv[i].preimage.bytes@ == toks[i].preimage.bytes@);
        assert(tv[i].blinding@ == toks[i].blinding@);
        assert(bv[i] == spec_pt_mul(
            le_val(toks[i].blinding@),
            spec_h2g(toks[i].preimage.bytes@),
        ));
    }
}

/// One decoded batch behind a pair of encoded lists, for which the proof has
/// the honest shape.
pub open spec fn batch_behind_encoded_lists(
    bs: Seq<BlindedToken>,
    ws: Seq<SignedToken>,
    p: BatchDLEQProof,
    blinded_str: Seq<char>,
    signed_str: Seq<char>,
    signing_key: SigningKey,
) -> bool {
    &&& spec_encoded_list(bs) == blinded_str
    &&& spec_encoded_list(ws) == signed_str
    &&& bs.len() == ws.len()
    &&& bs.len() > 0
    &&& proof_has_honest_shape(
        p,
        blinded_views(bs),
        signed_views(ws),
        signing_key.public_key.point@,
        le_val(signing_key.secret@),
    )
}

/// A proof created from comma-joined encoded lists: some decoded batch
/// encodes to the inputs and the proof has the honest shape for it.
pub open spec fn created_from_encoded_lists(
    p: BatchDLEQProof,
    blinded_str: Seq<char>,
    signed_str: Seq<char>,
    signing_key: SigningKey,
) -> bool {
    exists|bs: Seq<BlindedToken>, ws: Seq<SignedToken>|
        #[trigger] batch_behind_encoded_lists(bs, ws, p, blinded_str, signed_str, signing_key)
}

/// Some decoded token list and unblinded-token list tie the encoded input to
/// the encoded output.
pub open spec fn encodes_successful_unblinding(tokens_str: Seq<char>, out_str: Seq<char>) -> bool {
    exists|toks: Seq<Token>, us: Seq<UnblindedToken>|
        #[trigger] unblinding_behind_encoded_lists(toks, us, tokens_str, out_str)
}

/// Some decoded batch behind the encoded lists passes the proof's
/// verification equation.
pub open spec fn encodes_verified_batch(
    p: BatchDLEQProof,
    blinded_str: Seq<char>,
    signed_str: Seq<char>,
    public_key: PublicKey,
) -> bool {
    exists|bs: Seq<BlindedToken>, ws: Seq<SignedToken>|
        #[trigger] verified_batch_behind_encoded_lists(
            bs,
            ws,
            p,
            blinded_str,
            signed_str,
            public_key,
        )
}

/// The decoded tokens behind an encoded input list, and the unblinded tokens
/// behind the encoded output list: equal in number, well-formed, and carrying
/// the same preimages in the same order.
pub open spec fn unblinding_behind_encoded_lists(
    toks: Seq<Token>,
    us: Seq<UnblindedToken>,
    tokens_str: Seq<char>,
    out_str: Seq<char>,
) -> bool {
    &&& spec_encoded_list(toks) == tokens_str
    &&& spec_encoded_list(us) == out_str
    &&& us.len() == toks.len()
    &&& us.len() > 0
    &&& forall|i: int|
        0 <= i < us.len() ==> (#[trigger] us[i]).wf() && us[i].t.bytes@
            == toks[i].preimage.bytes@
}

/// One decoded batch behind a pair of encoded lists, against which the proof
/// passes the verification equation.
pub open spec fn verified_batch_behind_encoded_lists(
    bs: Seq<BlindedToken>,
    ws: Seq<SignedToken>,
    p: BatchDLEQProof,
    blinded_str: Seq<char>,
    signed_str: Seq<char>,
    public_key: PublicKey,
) -> bool {
    &&& spec_encoded_list(bs) == blinded_str
    &&& spec_encoded_list(ws) == signed_str
    &&& spec_verify(
        le_val(p.challenge@),
        le_val(p.response@),
        blinded_views(bs),
        signed_views(ws),
        public_key.point@,
    )
}

/// The unblinded tokens are exactly the rederivations of the given tokens
/// under secret value `k`, in order.
pub open spec fn rederivation_list(us: Seq<UnblindedToken>, toks: Seq<Token>, k: nat) -> bool {
    &&& us.len() == toks.len()
    &&& forall|i: int|
        0 <= i < us.len() ==> (#[trigger] us[i]).wf() && us[i].t.bytes@
            == toks[i].preimage.bytes@ && us[i].w@ == spec_pt_mul(
            k,
            spec_h2g(toks[i].preimage.bytes@),
        )
}

/// The output string encodes the rederivations of the tokens under `k`.
pub open spec fn encodes_rederivations(out_str: Seq<char>, toks: Seq<Token>, k: nat) -> bool {
    exists|us: Seq<UnblindedToken>|
        #[trigger] rederivation_list(us, toks, k) && out_str == spec_encoded_list(us)
}

impl BatchDLEQProof {
    /// Constructs a batch proof from comma-joined base64 lists of blinded and
    /// signed tokens, propagating the first decoding failure.
    pub fn create_from_encoded(
        blinded_tokens: &str,
        signed_tokens: &str,
        signing_key: &SigningKey,
    ) -> (r: Result<BatchDLEQProof, TokenError>)
        requires
            signing_key.wf(),
        ensures
            r matches Ok(p) ==> p.wf() && created_from_encoded_lists(
                p,
                blinded_tokens@,
                signed_tokens@,
                *signing_key,
            ),
            r matches Err(e) ==> e == TokenError::InvalidEncoding || e
                == TokenError::LengthMismatch || e == TokenError::InvalidGroupElement || e
                == TokenError::RandomSourceFailure,
            !(exists|bs2: Seq<BlindedToken>|
                #[trigger] wf_encoded_batch(bs2) && blinded_tokens@ == spec_encoded_list(bs2)) || !(
            exists|ws2: Seq<SignedToken>|
                #[trigger] wf_encoded_batch(ws2) && signed_tokens@ == spec_encoded_list(ws2))
                ==> r == Err::<BatchDLEQProof, TokenError>(TokenError::InvalidEncoding),
            forall|bs2: Seq<BlindedToken>, ws2: Seq<SignedToken>|
                #![trigger wf_encoded_batch(bs2), wf_encoded_batch(ws2)]
                wf_encoded_batch(bs2) && wf_encoded_batch(ws2) && blinded_tokens@
                    == spec_encoded_list(bs2) && signed_tokens@ == spec_encoded_list(ws2) ==> {
                    &&& (bs2.len() != ws2.len() ==> r == Err::<BatchDLEQProof, TokenError>(
                        TokenError::LengthMismatch,
                    ))
                    &&& (bs2.len() == ws2.len() && !(all_usable_blinded(bs2) && all_usable_signed(
                        ws2,
                    )) ==> r == Err::<BatchDLEQProof, TokenError>(TokenError::InvalidGroupElement))
                    &&& (bs2.len() == ws2.len() && all_usable_blinded(bs2) && all_usable_signed(
                        ws2,
                    ) ==> (r matches Err(e) ==> e == TokenError::RandomSourceFailure))
                    &&& (r matches Ok(p) ==> proof_has_honest_shape(
                        p,
                        blinded_views(bs2),
                        signed_views(ws2),
                        signing_key.public_key.point@,
                        le_val(signing_key.secret@),
                    ))
                },
    {
        let bs = match decode_list::<BlindedToken>(blinded_tokens) {
            Ok(v) => v,
            Err(e) => {
                proof {
                    assert forall|bs2: Seq<BlindedToken>|
                        #[trigger] wf_encoded_batch(bs2) && blinded_tokens@ == spec_encoded_list(
                            bs2,
                        ) implies false by {}
                }
                return Err(e);
            },
        };
        let ws = match decode_list::<SignedToken>(signed_tokens) {
            Ok(v) => v,
            Err(e) => {
                proof {
                    assert forall|ws2: Seq<SignedToken>|
                        #[trigger] wf_encoded_batch(ws2) && signed_tokens@ == spec_encoded_list(
                            ws2,
                        ) implies false by {}
                }
                return Err(e);
            },
        };
        let result = BatchDLEQProof::create(&bs, &ws, signing_key);
        proof {
            assert forall|bs2: Seq<BlindedToken>, ws2: Seq<SignedToken>|
                #![trigger wf_encoded_batch(bs2), wf_encoded_batch(ws2)]
                wf_encoded_batch(bs2) && wf_encoded_batch(ws2) && blinded_tokens@
                    == spec_encoded_list(bs2) && signed_tokens@ == spec_encoded_list(ws2) implies {
                &&& bs@.len() == bs2.len()
                &&& ws@.len() == ws2.len()
                &&& blinded_views(bs@) == blinded_views(bs2)
                &&& signed_views(ws@) == signed_views(ws2)
                &&& all_usable_blinded(bs@) == all_usable_blinded(bs2)
                &&& all_usable_signed(ws@) == all_usable_signed(ws2)
            } by {
                assert forall|i: int| 0 <= i < bs2.len() implies (#[trigger] bs@[i]).point@
                    == bs2[i].point@ by {
                    assert(bs@[i].spec_bytes() == bs2[i].spec_bytes());
                }
                assert forall|i: int| 0 <= i < ws2.len() implies (#[trigger] ws@[i]).point@
                    == ws2[i].point@ by {
                    assert(ws@[i].spec_bytes() == ws2[i].spec_bytes());
                }
                assert(blinded_views(bs@) =~= blinded_views(bs2));
                assert(signed_views(ws@) =~= signed_views(ws2));
                assert(all_usable_blinded(bs@) == all_usable_blinded(bs2)) by {
                    if all_usable_blinded(bs@) {
                        assert forall|i: int| 0 <= i < bs2.len() implies is_usable_pt(
                            #[trigger] bs2[i].point@,
                        ) by {
                            assert(is_usable_pt(bs@[i].point@));
                        }
                    }
                    if all_usable_blinded(bs2) {
                        assert forall|i: int| 0 <= i < bs@.len() implies is_usable_pt(
                            #[trigger] bs@[i].point@,
                        ) by {
                            assert(is_usable_pt(bs2[i].point@));
                        }
                    }
                }
                assert(all_usable_signed(ws@) == all_usable_signed(ws2)) by {
                    if all_usable_signed(ws@) {
                        assert forall|i: int| 0 <= i < ws2.len() implies is_usable_pt(
                            #[trigger] ws2[i].point@,
                        ) by {
                            assert(is_usable_pt(ws@[i].point@));
                        }
                    }
                    if all_usable_signed(ws2) {
                        assert forall|i: int| 0 <= i < ws@.len() implies is_usable_pt(
                            #[trigger] ws@[i].point@,
                        ) by {
                            assert(is_usable_pt(ws2[i].point@));
                        }
                    }
                }
            }
        }
        match result {
            Ok(p) => {
                proof {
                    assert(batch_behind_encoded_lists(
                        bs@,
                        ws@,
                        p,
                        blinded_tokens@,
                        signed_tokens@,
                        *signing_key,
                    ));
                    assert(created_from_encoded_lists(
                        p,
                        blinded_tokens@,
                        signed_tokens@,
                        *signing_key,
                    ));
                }
                Ok(p)
            },
            Err(e) => Err(e),
        }
    }

    /// Verifies the proof against comma-joined base64 lists of tokens,
    /// blinded tokens and signed tokens, and on success returns the
    /// comma-joined base64 list of unblinded tokens, in order.
    #[verifier::rlimit(100)]
    pub fn verify_and_unblind_from_encoded(
        &self,
        tokens: &str,
        blinded_tokens: &str,
        signed_tokens: &str,
        public_key: &PublicKey,
    ) -> (r: Result<String, TokenError>)
        requires
            self.wf(),
            public_key.wf(),
        ensures
            r matches Ok(out) ==> encodes_successful_unblinding(tokens@, out@)
                && encodes_verified_batch(*self, blinded_tokens@, signed_tokens@, *public_key),
            r matches Err(e) ==> e == TokenError::InvalidEncoding || e
                == TokenError::LengthMismatch || e == TokenError::InvalidGroupElement || e
                == TokenError::ProofVerificationFailed,
            !(exists|toks2: Seq<Token>|
                #[trigger] wf_encoded_batch(toks2) && tokens@ == spec_encoded_list(toks2)) || !(
            exists|bs2: Seq<BlindedToken>|
                #[trigger] wf_encoded_batch(bs2) && blinded_tokens@ == spec_encoded_list(bs2)) || !(
            exists|ws2: Seq<SignedToken>|
                #[trigger] wf_encoded_batch(ws2) && signed_tokens@ == spec_encoded_list(ws2))
                ==> r == Err::<String, TokenError>(TokenError::InvalidEncoding),
            forall|toks2: Seq<Token>, bs2: Seq<BlindedToken>, ws2: Seq<SignedToken>|
                #![trigger wf_encoded_batch(toks2), wf_encoded_batch(bs2), wf_encoded_batch(ws2)]
                wf_encoded_batch(toks2) && wf_encoded_batch(bs2) && wf_encoded_batch(ws2)
                    && tokens@ == spec_encoded_list(toks2) && blinded_tokens@ == spec_encoded_list(
                    bs2,
                ) && signed_tokens@ == spec_encoded_list(ws2) ==> {
                    &&& (toks2.len() != bs2.len() || bs2.len() != ws2.len() ==> r == Err::<
                        String,
                        TokenError,
                    >(TokenError::LengthMismatch))
                    &&& (toks2.len() == bs2.len() && bs2.len() == ws2.len() && !(is_usable_pt(
                        public_key.point@,
                    ) && all_usable_blinded(bs2) && all_usable_signed(ws2)) ==> r == Err::<
                        String,
                        TokenError,
                    >(TokenError::InvalidGroupElement))
                    &&& (toks2.len() == bs2.len() && bs2.len() == ws2.len() && is_usable_pt(
                        public_key.point@,
                    ) && all_usable_blinded(bs2) && all_usable_signed(ws2) ==> (r is Ok
                        <==> spec_verify(
                        le_val(self.challenge@),
                        le_val(self.response@),
                        blinded_views(bs2),
                        signed_views(ws2),
                        public_key.point@,
                    )))
                    &&& (toks2.len() == bs2.len() && bs2.len() == ws2.len() && is_usable_pt(
                        public_key.point@,
                    ) && all_usable_blinded(bs2) && all_usable_signed(ws2) && !spec_verify(
                        le_val(self.challenge@),
                        le_val(self.response@),
                        blinded_views(bs2),
                        signed_views(ws2),
                        public_key.point@,
                    ) ==> r == Err::<String, TokenError>(TokenError::ProofVerificationFailed))
                    &&& (forall|k: nat, n: nat|
                        honest_batch(
                            toks2,
                            blinded_views(bs2),
                            signed_views(ws2),
                            public_key.point@,
                            le_val(self.challenge@),
                            le_val(self.response@),
                            k,
                            n,
                        ) ==> spec_verify(
                            le_val(self.challenge@),
                            le_val(self.response@),
                            blinded_views(bs2),
                            signed_views(ws2),
                            public_key.point@,
                        ))
                    &&& (r matches Ok(out) ==> forall|k: nat, n: nat|
                        honest_batch(
                            toks2,
                            blinded_views(bs2),
                            signed_views(ws2),
                            public_key.point@,
                            le_val(self.challenge@),
                            le_val(self.response@),
                            k,
                            n,
                        ) ==> encodes_rederivations(out@, toks2, k))
                },
    {
        let toks = match decode_list::<Token>(tokens) {
            Ok(v) => v,
            Err(e) => {
                proof {
                    assert forall|toks2: Seq<Token>|
                        #[trigger] wf_encoded_batch(toks2) && tokens@ == spec_encoded_list(toks2)
                            implies false by {}
                }
                return Err(e);
            },
        };
        let bs = match decode_list::<BlindedToken>(blinded_tokens) {
            Ok(v) => v,
            Err(e) => {
                proof {
                    assert forall|bs2: Seq<BlindedToken>|
                        #[trigger] wf_encoded_batch(bs2) && blinded_tokens@ == spec_encoded_list(
                            bs2,
                        ) implies false by {}
                }
                return Err(e);
            },
        };
        let ws = match decode_list::<SignedToken>(signed_tokens) {
            Ok(v) => v,
            Err(e) => {
                proof {
                    assert forall|ws2: Seq<SignedToken>|
                        #[trigger] wf_encoded_batch(ws2) && signed_tokens@ == spec_encoded_list(
                            ws2,
                        ) implies false by {}
                }
                return Err(e);
            },
        };
        proof {
            assert forall|toks2: Seq<Token>, bs2: Seq<BlindedToken>, ws2: Seq<SignedToken>|
                #![trigger wf_encoded_batch(toks2), wf_encoded_batch(bs2), wf_encoded_batch(ws2)]
                wf_encoded_batch(toks2) && wf_encoded_batch(bs2) && wf_encoded_batch(ws2)
                    && tokens@ == spec_encoded_list(toks2) && blinded_tokens@ == spec_encoded_list(
                    bs2,
                ) && signed_tokens@ == spec_encoded_list(ws2) implies {
                &&& toks@.len() == toks2.len()
                &&& bs@.len() == bs2.len()
                &&& ws@.len() == ws2.len()
                &&& forall|i: int|
                    0 <= i < toks2.len() ==> (#[trigger] toks@[i]).preimage.bytes@
                        == toks2[i].preimage.bytes@ && toks@[i].blinding@ == toks2[i].blinding@
                &&& blinded_views(bs@) == blinded_views(bs2)
                &&& signed_views(ws@) == signed_views(ws2)
                &&& all_usable_blinded(bs@) == all_usable_blinded(bs2)
                &&& all_usable_signed(ws@) == all_usable_signed(ws2)
            } by {
                assert forall|i: int| 0 <= i < toks2.len() implies (#[trigger] toks@[i])
                    .preimage.bytes@ == toks2[i].preimage.bytes@ && toks@[i].blinding@
                    == toks2[i].blinding@ by {
                    assert(toks@[i].spec_bytes() == toks2[i].spec_bytes());
                    lemma_token_bytes_determine_fields(toks@[i], toks2[i]);
                }
                assert forall|i: int| 0 <= i < bs2.len() implies (#[trigger] bs@[i]).point@
                    == bs2[i].point@ by {
                    assert(bs@[i].spec_bytes() == bs2[i].spec_bytes());
                }
                assert forall|i: int| 0 <= i < ws2.len() implies (#[trigger] ws@[i]).point@
                    == ws2[i].point@ by {
                    assert(ws@[i].spec_bytes() == ws2[i].spec_bytes());
                }
                assert(blinded_views(bs@) =~= blinded_views(bs2));
                assert(signed_views(ws@) =~= signed_views(ws2));
                assert(all_usable_blinded(bs@) == all_usable_blinded(bs2)) by {
                    if all_usable_blinded(bs@) {
                        assert forall|i: int| 0 <= i < bs2.len() implies is_usable_pt(
                            #[trigger] bs2[i].point@,
                        ) by {
                            assert(is_usable_pt(bs@[i].point@));
                        }
                    }
                    if all_usable_blinded(bs2) {
                        assert forall|i: int| 0 <= i < bs@.len() implies is_usable_pt(
                            #[trigger] bs@[i].point@,
                        ) by {
                            assert(is_usable_pt(bs2[i].point@));
                        }
                    }
                }
                assert(all_usable_signed(ws@) == all_usable_signed(ws2)) by {
                    if all_usable_signed(ws@) {
                        assert forall|i: int| 0 <= i < ws2.len() implies is_usable_pt(
                            #[trigger] ws2[i].point@,
                        ) by {
                            assert(is_usable_pt(ws@[i].point@));
                        }
                    }
                    if all_usable_signed(ws2) {
                        assert forall|i: int| 0 <= i < ws@.len() implies is_usable_pt(
                            #[trigger] ws@[i].point@,
                        ) by {
                            assert(is_usable_pt(ws2[i].point@));
                        }
                    }
                }
            }
            assert forall|
                toks2: Seq<Token>,
                bs2: Seq<BlindedToken>,
                ws2: Seq<SignedToken>,
                k: nat,
                n: nat,
            |
                wf_encoded_batch(toks2) && wf_encoded_batch(bs2) && wf_encoded_batch(ws2)
                    && tokens@ == spec_encoded_list(toks2) && blinded_tokens@ == spec_encoded_list(
                    bs2,
                ) && signed_tokens@ == spec_encoded_list(ws2) && #[trigger] honest_batch(
                    toks2,
                    blinded_views(bs2),
                    signed_views(ws2),
                    public_key.point@,
                    le_val(self.challenge@),
                    le_val(self.response@),
                    k,
                    n,
                ) implies honest_batch(
                toks@,
                blinded_views(bs@),
                signed_views(ws@),
                public_key.point@,
                le_val(self.challenge@),
                le_val(self.response@),
                k,
                n,
            ) by {
                lemma_honest_batch_transfer(
                    toks@,
                    toks2,
                    blinded_views(bs2),
                    signed_views(ws2),
                    public_key.point@,
                    le_val(self.challenge@),
                    le_val(self.response@),
                    k,
                    n,
                );
            }
        }
        let unblinded = match self.verify_and_unblind(&toks, &bs, &ws, public_key) {
            Ok(us) => us,
            Err(e) => {
                return Err(e);
            },
        };
        let out = encode_list(&unblinded);
        proof {
            assert forall|
                toks2: Seq<Token>,
                bs2: Seq<BlindedToken>,
                ws2: Seq<SignedToken>,
                k: nat,
                n: nat,
            |
                wf_encoded_batch(toks2) && wf_encoded_batch(bs2) && wf_encoded_batch(ws2)
                    && tokens@ == spec_encoded_list(toks2) && blinded_tokens@ == spec_encoded_list(
                    bs2,
                ) && signed_tokens@ == spec_encoded_list(ws2) && #[trigger] honest_batch(
                    toks2,
                    blinded_views(bs2),
                    signed_views(ws2),
                    public_key.point@,
                    le_val(self.challenge@),
                    le_val(self.response@),
                    k,
                    n,
                ) implies encodes_rederivations(out@, toks2, k) by {
                assert(honest_batch(
                    toks@,
                    blinded_views(bs@),
                    signed_views(ws@),
                    public_key.point@,
                    le_val(self.challenge@),
                    le_val(self.response@),
                    k,
                    n,
                ));
                assert forall|i: int| 0 <= i < unblinded@.len() implies (#[trigger] unblinded@[i])
                    .wf() && unblinded@[i].t.bytes@ == toks2[i].preimage.bytes@ && unblinded@[i].w@
                    == spec_pt_mul(k, spec_h2g(toks2[i].preimage.bytes@)) by {
                    assert(blinded_views(bs@)[i] == bs@[i].point@);
                    assert(signed_views(ws@)[i] == ws@[i].point@);
                    assert(ws@[i].point@ == spec_pt_mul(
                        sc_mulv(k, le_val(toks@[i].blinding@)),
                        spec_h2g(toks@[i].preimage.bytes@),
                    ));
                    assert(toks@[i].preimage.bytes@ == toks2[i].preimage.bytes@);
                }
                assert(rederivation_list(unblinded@, toks2, k));
            }
        }
        proof {
            assert(unblinding_behind_encoded_lists(toks@, unblinded@, tokens@, out@));
            assert(encodes_successful_unblinding(tokens@, out@));
            assert(verified_batch_behind_encoded_lists(
                bs@,
                ws@,
                *self,
                blinded_tokens@,
                signed_tokens@,
                *public_key,
            ));
            assert(encodes_verified_batch(
                *self,
                blinded_tokens@,
                signed_tokens@,
                *public_key,
            ));
        }
        Ok(out)
    }
}

} // verus!
