use awake_core::errors::AwakeError;
use awake_core::transitable::{fresh_signature_verifies, fresh_unsign_round_trip, Transitable};
use awake_core::utils::gen_key_pair;

const TEST_STRINGS: &[&str] = &[
    "This is a first test",
    "!@#$%^&*(){}[]:\"';<>,.?\\|",
    "T8796543213251324658479876543421654687498324438927342234fodiu>?ASS/Fds/.df/D.,sf';[]pro[pww",
];

#[test]
fn can_sign() {
    for payload in TEST_STRINGS {
        let (public_key, private_key) = gen_key_pair();
        let data = Transitable::from_readable(payload).sign(&private_key).unwrap();
        assert_eq!(data.verify(&public_key).unwrap(), true);
    }
}

#[test]
fn can_unsign() {
    for payload in TEST_STRINGS {
        let (_, private_key) = gen_key_pair();
        let data = Transitable::from_readable(payload).sign(&private_key).unwrap();
        assert_eq!(data.unsign().unwrap().as_readable().unwrap(), *payload);
    }
}

#[test]
fn can_fail_sign() {
    for payload in TEST_STRINGS {
        let (public_key_imposter, _) = gen_key_pair();
        let (_, private_key) = gen_key_pair();
        let data = Transitable::from_readable(payload).sign(&private_key).unwrap();
        assert_eq!(data.verify(&public_key_imposter).unwrap(), false);
    }
}

#[test]
fn signed_form_is_a_three_segment_jwt() {
    let (_, private_key) = gen_key_pair();
    let signed = Transitable::from_readable("payload").sign(&private_key).unwrap();
    let text = signed.as_readable().unwrap();
    let segments: Vec<&str> = text.split('.').collect();
    assert_eq!(segments.len(), 3);
    let header = base64::decode(segments[0]).unwrap();
    assert_eq!(header, b"{\"alg\":\"ES512\",\"typ\":\"JWT\"}");
    let payload = base64::decode(segments[1]).unwrap();
    assert_eq!(payload, b"payload");
}

#[test]
fn sign_rejects_invalid_private_key() {
    let r = Transitable::from_readable("payload").sign(&[1u8, 2, 3]);
    assert_eq!(r.unwrap_err(), AwakeError::CipherFailure);
}

#[test]
fn verify_rejects_malformed_jwt() {
    let (public_key, _) = gen_key_pair();
    let not_a_jwt = Transitable::from_readable("no dots here");
    assert_eq!(not_a_jwt.verify(&public_key).unwrap_err(), AwakeError::MalformedJwt);
    let too_many = Transitable::from_readable("a.b.c.d");
    assert_eq!(too_many.verify(&public_key).unwrap_err(), AwakeError::MalformedJwt);
}

#[test]
fn unsign_rejects_malformed_jwt() {
    let not_a_jwt = Transitable::from_readable("segments?missing");
    assert_eq!(not_a_jwt.unsign().unwrap_err(), AwakeError::MalformedJwt);
}

#[test]
fn signing_two_payloads_gives_distinct_signatures() {
    let (_, private_key) = gen_key_pair();
    let a = Transitable::from_readable("one").sign(&private_key).unwrap();
    let b = Transitable::from_readable("two").sign(&private_key).unwrap();
    assert_ne!(a.as_bytes(), b.as_bytes());
}

#[test]
fn verified_signature_laws_hold_at_runtime() {
    let t = Transitable::from_readable("any payload at all");
    assert!(fresh_signature_verifies(&t));
    assert!(fresh_unsign_round_trip(&t));
}
