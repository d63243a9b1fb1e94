use cbr::dleq::BatchDLEQProof;
use cbr::encoding::{decode_base64, decode_list, encode_base64, encode_list, Serializable};
use cbr::errors::TokenError;
use cbr::voprf::{
    BlindedToken, PublicKey, SignedToken, SigningKey, Token, TokenPreimage, UnblindedToken,
    VerificationSignature,
};

fn round_trip<T: Serializable>(x: &T) {
    let encoded = encode_base64(x);
    let decoded: T = decode_base64(encoded.as_str()).unwrap();
    assert_eq!(decoded.to_bytes(), x.to_bytes());
    let reencoded = encode_base64(&decoded);
    assert_eq!(reencoded, encoded);
}

#[test]
fn every_entity_round_trips_through_base64() {
    let key = SigningKey::random().unwrap();
    let token = Token::random().unwrap();
    let blinded = token.blind();
    let signed = key.sign(&blinded).unwrap();
    let unblinded = key.rederive_unblinded_token(&token.preimage());
    let vk = unblinded.derive_verification_key_sha512();
    let sig = vk.sign_sha512(&b"msg"[..]);
    let proof = BatchDLEQProof::create(
        &vec![BlindedToken::from_bytes(&blinded.to_bytes()).unwrap()],
        &vec![SignedToken::from_bytes(&signed.to_bytes()).unwrap()],
        &key,
    )
    .unwrap();
    round_trip(&token.preimage());
    round_trip(&token);
    round_trip(&blinded);
    round_trip(&key.public_key());
    round_trip(&key);
    round_trip(&signed);
    round_trip(&unblinded);
    round_trip(&sig);
    round_trip(&proof);
}

#[test]
fn decoded_signing_key_recomputes_public_key() {
    let key = SigningKey::random().unwrap();
    let decoded: SigningKey = decode_base64(encode_base64(&key).as_str()).unwrap();
    assert_eq!(decoded.public_key().to_bytes(), key.public_key().to_bytes());
}

#[test]
fn decode_rejects_malformed_text() {
    let r: Result<Token, TokenError> = decode_base64("not/base64!!");
    assert_eq!(r.err().unwrap(), TokenError::InvalidEncoding);
    let r: Result<Token, TokenError> = decode_base64("AAAA");
    assert_eq!(r.err().unwrap(), TokenError::InvalidEncoding);
}

#[test]
fn decode_rejects_wrong_length() {
    let r = TokenPreimage::from_bytes(&[0u8; 63]);
    assert_eq!(r.err().unwrap(), TokenError::InvalidEncoding);
    let r = BlindedToken::from_bytes(&[0u8; 31]);
    assert_eq!(r.err().unwrap(), TokenError::InvalidEncoding);
    let r = PublicKey::from_bytes(&[0u8; 33]);
    assert_eq!(r.err().unwrap(), TokenError::InvalidEncoding);
    let r = UnblindedToken::from_bytes(&[0u8; 95]);
    assert_eq!(r.err().unwrap(), TokenError::InvalidEncoding);
    let r = VerificationSignature::from_bytes(&[0u8; 65]);
    assert_eq!(r.err().unwrap(), TokenError::InvalidEncoding);
    let r = BatchDLEQProof::from_bytes(&[0u8; 63]);
    assert_eq!(r.err().unwrap(), TokenError::InvalidEncoding);
}

#[test]
fn decode_rejects_non_canonical_scalar() {
    // the little-endian bytes of the group order itself: not a canonical scalar
    let mut order = [0u8; 32];
    let low = [
        0xedu8, 0xd3, 0xf5, 0x5c, 0x1a, 0x63, 0x12, 0x58, 0xd6, 0x9c, 0xf7, 0xa2, 0xde, 0xf9,
        0xde, 0x14,
    ];
    order[..16].copy_from_slice(&low);
    order[31] = 0x10;
    let mut token_bytes = [0u8; 96];
    token_bytes[64..].copy_from_slice(&order);
    let r = Token::from_bytes(&token_bytes);
    assert_eq!(r.err().unwrap(), TokenError::InvalidEncoding);
    let r = SigningKey::from_bytes(&order);
    assert_eq!(r.err().unwrap(), TokenError::InvalidEncoding);
    // one below the order is canonical
    let mut below = order;
    below[0] = 0xec;
    let r = SigningKey::from_bytes(&below);
    assert!(r.is_ok());
}

#[test]
fn decode_rejects_zero_blinding_scalar() {
    let token_bytes = [0u8; 96];
    let r = Token::from_bytes(&token_bytes);
    assert_eq!(r.err().unwrap(), TokenError::InvalidEncoding);
    let r = SigningKey::from_bytes(&[0u8; 32]);
    assert_eq!(r.err().unwrap(), TokenError::InvalidEncoding);
}

#[test]
fn encoding_of_zero_preimage_is_exact() {
    let preimage = TokenPreimage::from_bytes(&[0u8; 64]).unwrap();
    let mut expected = String::new();
    for _ in 0..86 {
        expected.push('A');
    }
    expected.push_str("==");
    assert_eq!(encode_base64(&preimage), expected);
}

#[test]
fn encoded_lists_split_and_join() {
    let mut blinded = Vec::new();
    for _ in 0..3 {
        blinded.push(Token::random().unwrap().blind());
    }
    let joined = encode_list(&blinded);
    assert_eq!(joined.matches(',').count(), 2);
    let decoded: Vec<BlindedToken> = decode_list(joined.as_str()).unwrap();
    assert_eq!(decoded.len(), 3);
    for (a, b) in decoded.iter().zip(blinded.iter()) {
        assert_eq!(a.to_bytes(), b.to_bytes());
    }
}

#[test]
fn decode_list_propagates_first_failure() {
    let b1 = encode_base64(&Token::random().unwrap().blind());
    let joined = format!("{},zz!,{}", b1, b1);
    let r: Result<Vec<BlindedToken>, TokenError> = decode_list(joined.as_str());
    assert_eq!(r.err().unwrap(), TokenError::InvalidEncoding);
}

#[test]
fn batch_proof_from_encoded_lists() {
    let key = SigningKey::random().unwrap();
    let mut tokens = Vec::new();
    let mut blinded = Vec::new();
    let mut signed = Vec::new();
    for _ in 0..3 {
        let t = Token::random().unwrap();
        let b = t.blind();
        let w = key.sign(&b).unwrap();
        tokens.push(t);
        blinded.push(b);
        signed.push(w);
    }
    let blinded_str = encode_list(&blinded);
    let signed_str = encode_list(&signed);
    let tokens_str = encode_list(&tokens);
    let proof =
        BatchDLEQProof::create_from_encoded(blinded_str.as_str(), signed_str.as_str(), &key)
            .unwrap();
    let public_key = key.public_key();
    let out = proof
        .verify_and_unblind_from_encoded(
            tokens_str.as_str(),
            blinded_str.as_str(),
            signed_str.as_str(),
            &public_key,
        )
        .unwrap();
    let unblinded: Vec<UnblindedToken> = decode_list(out.as_str()).unwrap();
    assert_eq!(unblinded.len(), 3);
    for (t, u) in tokens.iter().zip(unblinded.iter()) {
        let rederived = key.rederive_unblinded_token(&t.preimage());
        assert_eq!(u.to_bytes(), rederived.to_bytes());
    }
}

#[test]
fn batch_proof_from_encoded_rejects_malformed_element() {
    let key = SigningKey::random().unwrap();
    let b = encode_base64(&Token::random().unwrap().blind());
    let w = encode_base64(&key.sign(&Token::random().unwrap().blind()).unwrap());
    let bad = format!("{},#bad#", b);
    let r = BatchDLEQProof::create_from_encoded(bad.as_str(), w.as_str(), &key);
    assert_eq!(r.err().unwrap(), TokenError::InvalidEncoding);
}

#[test]
fn verification_key_derivation_is_deterministic() {
    let key = SigningKey::random().unwrap();
    let token = Token::random().unwrap();
    let u1 = key.rederive_unblinded_token(&token.preimage());
    let u2 = key.rederive_unblinded_token(&token.preimage());
    let vk1 = u1.derive_verification_key_sha512();
    let vk2 = u2.derive_verification_key_sha512();
    let s1 = vk1.sign_sha512(&b"x"[..]);
    let s2 = vk2.sign_sha512(&b"x"[..]);
    assert_eq!(s1.to_bytes(), s2.to_bytes());
    assert_eq!(s1.to_bytes().len(), 64);
    assert_ne!(s1.to_bytes(), vec![b'x']);
}
