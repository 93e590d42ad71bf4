use awake_core::utils::{
    aes_gcm_decrypt, aes_gcm_encrypt, crypto_key_to_did_key, did_key_to_crypto_key, diffie_helman,
    ecdsa_sign_digest, ecdsa_verify_digest, gen_key_pair, get_message_id, hkdf_sha256,
    sha256_digest, sha512_digest, u64_be_bytes,
};
use sha2::Digest;

#[test]
fn sha256_matches_known_vector() {
    let d = sha256_digest(b"abc");
    let expected: [u8; 32] = [
        0xba, 0x78, 0x16, 0xbf, 0x8f, 0x01, 0xcf, 0xea, 0x41, 0x41, 0x40, 0xde, 0x5d, 0xae, 0x22,
        0x23, 0xb0, 0x03, 0x61, 0xa3, 0x96, 0x17, 0x7a, 0x9c, 0xb4, 0x10, 0xff, 0x61, 0xf2, 0x00,
        0x15, 0xad,
    ];
    assert_eq!(d.as_slice(), &expected);
}

#[test]
fn sha512_matches_direct_digest() {
    let d = sha512_digest(b"abc");
    let direct = sha2::Sha512::digest(b"abc").to_vec();
    assert_eq!(d, direct);
    assert_eq!(d.len(), 64);
}

#[test]
fn hkdf_matches_direct_expansion() {
    let ikm = [0x0bu8; 22];
    let salt: Vec<u8> = (0u8..13).collect();
    let info: Vec<u8> = (0xf0u8..0xfa).collect();
    let okm = hkdf_sha256(&ikm, &salt, &info, 42);
    assert_eq!(okm.len(), 42);
    let h = hkdf::Hkdf::<sha2::Sha256>::new(Some(&salt), &ikm);
    let mut direct = vec![0u8; 42];
    h.expand(&info, &mut direct).unwrap();
    assert_eq!(okm, direct);
    // a different salt must give different key material
    let other = hkdf_sha256(&ikm, b"another salt", &info, 42);
    assert_ne!(okm, other);
}

#[test]
fn diffie_helman_is_symmetric() {
    let (pub_a, priv_a) = gen_key_pair();
    let (pub_b, priv_b) = gen_key_pair();
    let s1 = diffie_helman(&priv_a, &pub_b).unwrap();
    let s2 = diffie_helman(&priv_b, &pub_a).unwrap();
    assert_eq!(s1, s2);
    assert_eq!(s1.len(), 32);
    // agreement with an unrelated key differs
    let (pub_c, _priv_c) = gen_key_pair();
    let s3 = diffie_helman(&priv_a, &pub_c).unwrap();
    assert_ne!(s1, s3);
}

#[test]
fn diffie_helman_rejects_garbage_keys() {
    let (pub_a, priv_a) = gen_key_pair();
    assert!(diffie_helman(&[1u8, 2, 3], &pub_a).is_none());
    assert!(diffie_helman(&priv_a, &[5u8; 65]).is_none());
}

#[test]
fn aes_gcm_round_trip_and_tamper() {
    let key = [7u8; 32];
    let iv = [9u8; 12];
    let ct = aes_gcm_encrypt(&key, &iv, b"a secret payload");
    assert_eq!(ct.len(), b"a secret payload".len() + 16);
    let pt = aes_gcm_decrypt(&key, &iv, &ct).unwrap();
    assert_eq!(pt, b"a secret payload");
    let mut bad = ct.clone();
    bad[0] ^= 1;
    assert!(aes_gcm_decrypt(&key, &iv, &bad).is_none());
    let wrong_key = [8u8; 32];
    assert!(aes_gcm_decrypt(&wrong_key, &iv, &ct).is_none());
}

#[test]
fn ecdsa_sign_verify_and_reject() {
    let (public, private) = gen_key_pair();
    let digest = sha512_digest(b"message to sign");
    let sig = ecdsa_sign_digest(&private, &digest).unwrap();
    assert_eq!(sig.len(), 64);
    assert!(ecdsa_verify_digest(&public, &digest, &sig));
    let other_digest = sha512_digest(b"another message");
    assert!(!ecdsa_verify_digest(&public, &other_digest, &sig));
    let mut bad = sig.clone();
    bad[10] ^= 0xff;
    assert!(!ecdsa_verify_digest(&public, &digest, &bad));
}

#[test]
fn can_convert_to_did() {
    let (key, _) = gen_key_pair();
    let did = crypto_key_to_did_key(&key);
    let new_key = did_key_to_crypto_key(&did).unwrap();
    let new_did = crypto_key_to_did_key(&new_key);
    assert_eq!(did, new_did);
    assert_eq!(key, new_key);
    assert!(did.starts_with("did:key:zDn"));
}

#[test]
fn did_decode_rejects_malformed_text() {
    assert!(did_key_to_crypto_key("nonsense").is_err());
    assert!(did_key_to_crypto_key("did:key:zDn0OIl").is_err());
    // valid base58 tail that is not a P-256 point
    assert!(did_key_to_crypto_key("did:key:zDn2").is_err());
}

#[test]
fn message_id_covers_counter() {
    let (key_a, _) = gen_key_pair();
    let (key_b, _) = gen_key_pair();
    let plain = get_message_id(&key_a, &key_b, None);
    let counted = get_message_id(&key_a, &key_b, Some(5));
    assert_eq!(plain.len(), 32);
    assert_ne!(plain, counted);
    // matches a digest computed by hand
    let mut data = key_a.clone();
    data.extend_from_slice(&key_b);
    data.extend_from_slice(&u64_be_bytes(5));
    assert_eq!(counted, sha2::Sha256::digest(&data).to_vec());
}

#[test]
fn big_endian_counter_bytes() {
    assert_eq!(u64_be_bytes(42), vec![0, 0, 0, 0, 0, 0, 0, 42]);
    assert_eq!(u64_be_bytes(0x0102030405060708), vec![1, 2, 3, 4, 5, 6, 7, 8]);
}

#[test]
fn verified_did_law_holds_at_runtime() {
    let (key, _) = gen_key_pair();
    let back = awake_core::utils::did_round_trip(&key).unwrap();
    assert_eq!(back, key);
}
