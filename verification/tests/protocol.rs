use cbr::dleq::{batch_round_trip, BatchDLEQProof};
use cbr::encoding::Serializable;
use cbr::errors::TokenError;
use cbr::voprf::{
    mac_sign_verify_round_trip, rederivations_under_distinct_keys_differ,
    unblinding_matches_rederivation, BlindedToken, SigningKey, Token,
};

fn signed_batch(
    n: usize,
    key: &SigningKey,
) -> (Vec<Token>, Vec<BlindedToken>, Vec<cbr::voprf::SignedToken>) {
    let mut tokens = Vec::new();
    let mut blinded = Vec::new();
    let mut signed = Vec::new();
    for _ in 0..n {
        let t = Token::random().unwrap();
        let b = t.blind();
        let w = key.sign(&b).unwrap();
        tokens.push(t);
        blinded.push(b);
        signed.push(w);
    }
    (tokens, blinded, signed)
}

#[test]
fn unblinding_agrees_with_rederivation() {
    let token = Token::random().unwrap();
    let key = SigningKey::random().unwrap();
    let (client_side, server_side) = unblinding_matches_rederivation(&token, &key).unwrap();
    assert_eq!(client_side.to_bytes(), server_side.to_bytes());
}

#[test]
fn unblinding_differs_under_other_key() {
    let token = Token::random().unwrap();
    let key1 = SigningKey::random().unwrap();
    let key2 = SigningKey::random().unwrap();
    let (client_side, _) = unblinding_matches_rederivation(&token, &key1).unwrap();
    let other = key2.rederive_unblinded_token(&token.preimage());
    assert_ne!(client_side.to_bytes(), other.to_bytes());
    assert!(rederivations_under_distinct_keys_differ(&key1, &key2, &token.preimage()));
}

#[test]
fn mac_round_trip_succeeds() {
    let token = Token::random().unwrap();
    let key = SigningKey::random().unwrap();
    let u = key.rederive_unblinded_token(&token.preimage());
    let vk = u.derive_verification_key_sha512();
    assert!(mac_sign_verify_round_trip(&vk, &b"test message"[..]));
    let sig = vk.sign_sha512(&b"test message"[..]);
    assert!(vk.verify_sha512(&sig, &b"test message"[..]));
}

#[test]
fn mac_rejects_tampered_message() {
    let token = Token::random().unwrap();
    let key = SigningKey::random().unwrap();
    let u = key.rederive_unblinded_token(&token.preimage());
    let vk = u.derive_verification_key_sha512();
    let sig = vk.sign_sha512(&b"test message"[..]);
    assert!(!vk.verify_sha512(&sig, &b"test messagf"[..]));
    assert!(!vk.verify_sha512(&sig, &b"Test message"[..]));
    assert!(!vk.verify_sha512(&sig, &b""[..]));
}

#[test]
fn mac_rejects_tampered_tag() {
    let token = Token::random().unwrap();
    let key = SigningKey::random().unwrap();
    let u = key.rederive_unblinded_token(&token.preimage());
    let vk = u.derive_verification_key_sha512();
    let sig = vk.sign_sha512(&b"test message"[..]);
    let tag = sig.to_bytes();
    for i in 0..tag.len() {
        let mut bad = tag.clone();
        bad[i] ^= 1;
        let bad_sig = cbr::voprf::VerificationSignature::from_bytes(&bad).unwrap();
        assert!(!vk.verify_sha512(&bad_sig, &b"test message"[..]));
    }
}

#[test]
fn mac_rejects_key_from_other_token() {
    let key = SigningKey::random().unwrap();
    let t1 = Token::random().unwrap();
    let t2 = Token::random().unwrap();
    let vk1 = key.rederive_unblinded_token(&t1.preimage()).derive_verification_key_sha512();
    let vk2 = key.rederive_unblinded_token(&t2.preimage()).derive_verification_key_sha512();
    let sig = vk1.sign_sha512(&b"redeem"[..]);
    assert!(!vk2.verify_sha512(&sig, &b"redeem"[..]));
}

#[test]
fn batch_proof_round_trip_law() {
    let key = SigningKey::random().unwrap();
    let mut tokens = Vec::new();
    for _ in 0..3 {
        tokens.push(Token::random().unwrap());
    }
    let unblinded = batch_round_trip(&tokens, &key).unwrap();
    assert_eq!(unblinded.len(), 3);
    for (t, u) in tokens.iter().zip(unblinded.iter()) {
        let rederived = key.rederive_unblinded_token(&t.preimage());
        assert_eq!(u.to_bytes(), rederived.to_bytes());
    }
}

#[test]
fn three_token_issuance_scenario() {
    let key = SigningKey::random().unwrap();
    let (tokens, blinded, signed) = signed_batch(3, &key);
    let proof = BatchDLEQProof::create(&blinded, &signed, &key).unwrap();
    let public_key = key.public_key();
    let unblinded = proof.verify_and_unblind(&tokens, &blinded, &signed, &public_key).unwrap();
    assert_eq!(unblinded.len(), 3);
    for (t, u) in tokens.iter().zip(unblinded.iter()) {
        let rederived = key.rederive_unblinded_token(&t.preimage());
        assert_eq!(u.to_bytes(), rederived.to_bytes());
    }
}

#[test]
fn batch_proof_rejects_token_signed_under_other_key() {
    let key = SigningKey::random().unwrap();
    let other = SigningKey::random().unwrap();
    let (tokens, blinded, signed) = signed_batch(3, &key);
    let proof = BatchDLEQProof::create(&blinded, &signed, &key).unwrap();
    let public_key = key.public_key();
    for i in 0..3 {
        let mut forged = Vec::new();
        for (j, w) in signed.iter().enumerate() {
            if j == i {
                forged.push(other.sign(&blinded[j]).unwrap());
            } else {
                forged.push(cbr::voprf::SignedToken::from_bytes(&w.to_bytes()).unwrap());
            }
        }
        let r = proof.verify_and_unblind(&tokens, &blinded, &forged, &public_key);
        assert_eq!(r.err().unwrap(), TokenError::ProofVerificationFailed);
    }
}

#[test]
fn batch_proof_rejects_permuted_blinded_tokens() {
    let key = SigningKey::random().unwrap();
    let (tokens, blinded, signed) = signed_batch(3, &key);
    let proof = BatchDLEQProof::create(&blinded, &signed, &key).unwrap();
    let public_key = key.public_key();
    let mut permuted = Vec::new();
    for i in [1usize, 0, 2] {
        permuted.push(BlindedToken::from_bytes(&blinded[i].to_bytes()).unwrap());
    }
    let r = proof.verify_and_unblind(&tokens, &permuted, &signed, &public_key);
    assert_eq!(r.err().unwrap(), TokenError::ProofVerificationFailed);
}

#[test]
fn batch_length_mismatch_is_rejected() {
    let key = SigningKey::random().unwrap();
    let (tokens, blinded, mut signed) = signed_batch(3, &key);
    let public_key = key.public_key();
    signed.pop();
    let r = BatchDLEQProof::create(&blinded, &signed, &key);
    assert_eq!(r.err().unwrap(), TokenError::LengthMismatch);
    let (_, _, signed_full) = signed_batch(3, &key);
    let proof = BatchDLEQProof::create(&blinded, &signed_full, &key).unwrap();
    let r = proof.verify_and_unblind(&tokens, &blinded, &signed, &public_key);
    assert_eq!(r.err().unwrap(), TokenError::LengthMismatch);
}

#[test]
fn empty_batch_is_rejected() {
    let key = SigningKey::random().unwrap();
    let r = BatchDLEQProof::create(&Vec::new(), &Vec::new(), &key);
    assert_eq!(r.err().unwrap(), TokenError::EmptyBatch);
}

#[test]
fn sign_rejects_invalid_group_element() {
    let key = SigningKey::random().unwrap();
    let bad = BlindedToken::from_bytes(&[0xffu8; 32]).unwrap();
    let r = key.sign(&bad);
    assert_eq!(r.err().unwrap(), TokenError::InvalidGroupElement);
}

#[test]
fn sign_rejects_identity_element() {
    let key = SigningKey::random().unwrap();
    let identity = BlindedToken::from_bytes(&[0u8; 32]).unwrap();
    let r = key.sign(&identity);
    assert_eq!(r.err().unwrap(), TokenError::InvalidGroupElement);
}

#[test]
fn verify_rejects_identity_public_key() {
    let key = SigningKey::random().unwrap();
    let (tokens, blinded, signed) = signed_batch(2, &key);
    let proof = BatchDLEQProof::create(&blinded, &signed, &key).unwrap();
    let identity_key = cbr::voprf::PublicKey::from_bytes(&[0u8; 32]).unwrap();
    let r = proof.verify_and_unblind(&tokens, &blinded, &signed, &identity_key);
    assert_eq!(r.err().unwrap(), TokenError::InvalidGroupElement);
}

#[test]
fn batch_rejects_identity_blinded_token() {
    let key = SigningKey::random().unwrap();
    let (_, mut blinded, signed) = signed_batch(2, &key);
    blinded[1] = BlindedToken::from_bytes(&[0u8; 32]).unwrap();
    let r = BatchDLEQProof::create(&blinded, &signed, &key);
    assert_eq!(r.err().unwrap(), TokenError::InvalidGroupElement);
}

#[test]
fn verify_rejects_invalid_points_in_batch() {
    let key = SigningKey::random().unwrap();
    let (tokens, blinded, signed) = signed_batch(2, &key);
    let proof = BatchDLEQProof::create(&blinded, &signed, &key).unwrap();
    let bad_key = cbr::voprf::PublicKey::from_bytes(&[0xffu8; 32]).unwrap();
    let r = proof.verify_and_unblind(&tokens, &blinded, &signed, &bad_key);
    assert_eq!(r.err().unwrap(), TokenError::InvalidGroupElement);
}

#[test]
fn public_key_of_one_is_the_basepoint() {
    let mut k = [0u8; 32];
    k[0] = 1;
    let key = SigningKey::from_bytes(&k).unwrap();
    let basepoint_encoding: [u8; 32] = [
        0xe2, 0xf2, 0xae, 0x0a, 0x6a, 0xbc, 0x4e, 0x71, 0xa8, 0x84, 0xa9, 0x61, 0xc5, 0x00, 0x51,
        0x5f, 0x58, 0xe3, 0x0b, 0x6a, 0xa5, 0x82, 0xdd, 0x8d, 0xb6, 0xa6, 0x59, 0x45, 0xe0, 0x8d,
        0x2d, 0x76,
    ];
    assert_eq!(key.public_key().to_bytes(), basepoint_encoding.to_vec());
}

#[test]
fn blinding_changes_the_point() {
    let token = Token::random().unwrap();
    let b = token.blind();
    let b2 = token.blind();
    assert_eq!(b.to_bytes(), b2.to_bytes());
    assert_ne!(b.to_bytes(), token.preimage().to_bytes()[0..32].to_vec());
    let other = Token::random().unwrap();
    assert_ne!(b.to_bytes(), other.blind().to_bytes());
}

#[test]
fn randomness_gives_distinct_values() {
    let t1 = Token::random().unwrap();
    let t2 = Token::random().unwrap();
    assert_ne!(t1.to_bytes(), t2.to_bytes());
    let k1 = SigningKey::random().unwrap();
    let k2 = SigningKey::random().unwrap();
    assert_ne!(k1.to_bytes(), k2.to_bytes());
}
