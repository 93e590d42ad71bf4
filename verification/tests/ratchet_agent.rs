use awake_core::errors::AwakeError;
use awake_core::forien_agent::ForienAgent;
use awake_core::ratchet::{mutual_ratchet_round_trip, PayloadHandler, Ratchet};
use awake_core::transitable::Transitable;
use awake_core::utils::{crypto_key_to_did_key, diffie_helman, gen_key_pair};
use sha2::Digest;

fn can_rachet_crypto_func(text_in: &str, id: usize, salt_str: &str) -> bool {
    let salt = salt_str.as_bytes().to_vec();
    let (sender_public, sender_private) = gen_key_pair();
    let (reciever_public, reciever_private) = gen_key_pair();
    let sender_key = diffie_helman(&sender_private, &reciever_public).unwrap();
    let reciever_key = diffie_helman(&reciever_private, &sender_public).unwrap();
    let mut sender_ratchet = Ratchet::new(sender_key, true, salt.clone());
    let mut reciever_ratchet = Ratchet::new(reciever_key, false, salt.clone());
    let text_in_vec = Transitable::from_readable(text_in);
    let sent_message = sender_ratchet.process_payload(id, text_in_vec).unwrap();
    let recieved_vec = reciever_ratchet.process_payload(id, sent_message).unwrap();
    let recieved_text = recieved_vec.as_readable();
    text_in == recieved_text.unwrap()
}

#[test]
fn can_rachet_crypto() {
    let tests: Vec<(&str, usize, &str)> = vec![
        ("This is a first test", 5, "this is a salt"),
        (
            "T8796543213251324658479876543421654687498324438927342234fodiu>?ASS/Fds/.df/D.,sf';[]pro[pww",
            0,
            "T8796543213251324658479876543421654687498324438927342234fodiu>?ASS/Fds/.df/D.,sf';[]pro[pww",
        ),
        ("!@#$%^&*(){}[]:\"';<>,.?\\|", 50, "!@#$%^&*(){}[]:\"';<>,.?\\|"),
    ];
    for (text, id, salt) in tests {
        assert!(can_rachet_crypto_func(text, id, salt), "failed with text:{} id:{} salt:{}", text, id, salt);
    }
}

#[test]
fn ratchet_index_reuse_fails() {
    let (_, private_key) = gen_key_pair();
    let (public_key, _) = gen_key_pair();
    let shared = diffie_helman(&private_key, &public_key).unwrap();
    let mut ratchet = Ratchet::new(shared, true, b"salt".to_vec());
    let first = ratchet.process_payload(3, Transitable::from_readable("payload"));
    assert!(first.is_ok());
    let second = ratchet.process_payload(3, Transitable::from_readable("payload"));
    assert_eq!(second.unwrap_err(), AwakeError::AlreadyProcessed(3));
}

#[test]
fn handler_next_after_next_fails() {
    let mut handler = PayloadHandler::new(b"some shared secret", b"salt".to_vec(), None);
    assert!(!handler.has_created_next());
    let successor = handler.next(0);
    assert!(successor.is_ok());
    assert!(handler.has_created_next());
    let again = handler.next(0);
    assert!(matches!(again, Err(AwakeError::AlreadyProcessed(0))));
}

#[test]
fn handler_one_shot_processing() {
    let mut handler = PayloadHandler::new(b"ikm", b"salt".to_vec(), None);
    let first = handler.proccess_payload(0, true, Transitable::from_readable("msg"));
    assert!(first.is_ok());
    let second = handler.proccess_payload(0, true, Transitable::from_readable("msg"));
    assert_eq!(second.unwrap_err(), AwakeError::AlreadyProcessed(0));
}

#[test]
fn ratchet_rekey_changes_later_elements() {
    let (_, private_a) = gen_key_pair();
    let (public_b, _) = gen_key_pair();
    let shared = diffie_helman(&private_a, &public_b).unwrap();
    let mut plain = Ratchet::new(shared.clone(), true, b"salt".to_vec());
    let mut rekeyed = Ratchet::new(shared, true, b"salt".to_vec());
    rekeyed.set_new_shared_key(1, b"a new shared secret");
    let from_plain = plain.process_payload(1, Transitable::from_readable("x")).unwrap();
    let from_rekeyed = rekeyed.process_payload(1, Transitable::from_readable("x")).unwrap();
    assert_ne!(from_plain.as_bytes(), from_rekeyed.as_bytes());
    // element 0 is untouched by the rekey
    let a0 = plain.process_payload(0, Transitable::from_readable("y")).unwrap();
    let b0 = rekeyed.process_payload(0, Transitable::from_readable("y")).unwrap();
    assert_eq!(a0.as_bytes(), b0.as_bytes());
}

fn mutual_agents() -> (ForienAgent, ForienAgent) {
    let (pub_a, priv_a) = gen_key_pair();
    let (pub_b, priv_b) = gen_key_pair();
    let did_a = crypto_key_to_did_key(&pub_a);
    let did_b = crypto_key_to_did_key(&pub_b);
    // requestor side: salted with its own DID; responder side: salted
    // with the requestor's DID
    let agent_a = ForienAgent::new(&priv_a, &did_b, Some(&pub_a.to_vec())).unwrap();
    let agent_b = ForienAgent::new(&priv_b, &did_a, None).unwrap();
    (agent_a, agent_b)
}

#[test]
fn agents_transfer_a_payload() {
    let (mut agent_a, mut agent_b) = mutual_agents();
    let (mid, ciphertext) = agent_a.encrypt_for(Transitable::from_readable("over the wire")).unwrap();
    assert_eq!(mid, "0");
    let plain = agent_b.decrypt_for(0, ciphertext).unwrap();
    assert_eq!(plain.as_readable().unwrap(), "over the wire");
}

#[test]
fn agent_send_counter_moves_on() {
    let (mut agent_a, mut agent_b) = mutual_agents();
    let (mid0, ct0) = agent_a.encrypt_for(Transitable::from_readable("first")).unwrap();
    let (mid1, ct1) = agent_a.encrypt_for(Transitable::from_readable("second")).unwrap();
    assert_eq!(mid0, "0");
    assert_eq!(mid1, "1");
    assert_eq!(agent_b.decrypt_for(0, ct0).unwrap().as_readable().unwrap(), "first");
    assert_eq!(agent_b.decrypt_for(1, ct1).unwrap().as_readable().unwrap(), "second");
}

#[test]
fn agent_decrypt_index_reuse_fails() {
    let (mut agent_a, mut agent_b) = mutual_agents();
    let (_, ciphertext) = agent_a.encrypt_for(Transitable::from_readable("once")).unwrap();
    let copy = Transitable::from_bytes(&ciphertext.as_bytes());
    assert!(agent_b.decrypt_for(0, ciphertext).is_ok());
    assert_eq!(agent_b.decrypt_for(0, copy).unwrap_err(), AwakeError::AlreadyProcessed(0));
}

#[test]
fn agent_decrypt_tampered_payload_fails() {
    let (mut agent_a, mut agent_b) = mutual_agents();
    let (_, ciphertext) = agent_a.encrypt_for(Transitable::from_readable("intact")).unwrap();
    let mut bytes = ciphertext.as_bytes();
    bytes[0] ^= 1;
    let r = agent_b.decrypt_for(0, Transitable::from_bytes(&bytes));
    assert_eq!(r.unwrap_err(), AwakeError::CipherFailure);
}

#[test]
fn finalized_agent_derives_prefixed_mids() {
    let (mut agent_a, mut agent_b) = mutual_agents();
    let (pub_c, priv_c) = gen_key_pair();
    let (pub_d, priv_d) = gen_key_pair();
    let did_c = crypto_key_to_did_key(&pub_c);
    let did_d = crypto_key_to_did_key(&pub_d);
    agent_a.finalize(&priv_c, &did_d, b"PREFIX".to_vec()).unwrap();
    agent_b.finalize(&priv_d, &did_c, b"PREFIX".to_vec()).unwrap();
    // walk the counter to 42, then look at the derived message id
    let mut last = (String::new(), Transitable::from_bytes(&[]));
    for _ in 0..43 {
        last = agent_a.encrypt_for(Transitable::from_readable("tick")).unwrap();
    }
    let mut data = b"PREFIX".to_vec();
    data.extend_from_slice(&[0, 0, 0, 0, 0, 0, 0, 42]);
    let expected = base64::encode(sha2::Sha256::digest(&data));
    assert_eq!(last.0, expected);
}

#[test]
fn finalized_agents_still_talk_and_mid_lookup_works() {
    let (mut agent_a, mut agent_b) = mutual_agents();
    let (pub_c, priv_c) = gen_key_pair();
    let (pub_d, priv_d) = gen_key_pair();
    let did_c = crypto_key_to_did_key(&pub_c);
    let did_d = crypto_key_to_did_key(&pub_d);
    agent_a.finalize(&priv_c, &did_d, b"shared prefix".to_vec()).unwrap();
    agent_b.finalize(&priv_d, &did_c, b"shared prefix".to_vec()).unwrap();
    let (mid, ciphertext) = agent_a.encrypt_for(Transitable::from_readable("found me")).unwrap();
    let plain = agent_b.decrypt_with_mid(&mid, ciphertext).unwrap();
    assert_eq!(plain.as_readable().unwrap(), "found me");
}

#[test]
fn mid_lookup_without_prefix_is_unknown() {
    let (mut agent_a, _) = mutual_agents();
    let r = agent_a.decrypt_with_mid("whatever", Transitable::from_readable("x"));
    assert_eq!(r.unwrap_err(), AwakeError::UnknownMid);
}

#[test]
fn mid_lookup_with_unmatched_mid_is_unknown() {
    let (mut agent_a, mut agent_b) = mutual_agents();
    let (pub_c, priv_c) = gen_key_pair();
    let (pub_d, priv_d) = gen_key_pair();
    let did_c = crypto_key_to_did_key(&pub_c);
    let did_d = crypto_key_to_did_key(&pub_d);
    agent_a.finalize(&priv_c, &did_d, b"one prefix".to_vec()).unwrap();
    agent_b.finalize(&priv_d, &did_c, b"other prefix".to_vec()).unwrap();
    let (mid, ciphertext) = agent_a.encrypt_for(Transitable::from_readable("lost")).unwrap();
    // the receiver derives mids under a different prefix, so nothing matches
    let r = agent_b.decrypt_with_mid(&mid, ciphertext);
    assert_eq!(r.unwrap_err(), AwakeError::UnknownMid);
}

#[test]
fn agent_rejects_bad_did_and_bad_key() {
    let (_, priv_a) = gen_key_pair();
    assert!(matches!(
        ForienAgent::new(&priv_a, "not a did", None),
        Err(AwakeError::MalformedDid)
    ));
    let (pub_b, _) = gen_key_pair();
    let did_b = crypto_key_to_did_key(&pub_b);
    assert!(matches!(
        ForienAgent::new(&[9u8, 9, 9], &did_b, None),
        Err(AwakeError::CipherFailure)
    ));
}

#[test]
fn agent_verifies_its_peers_signature() {
    let (pub_b, priv_b) = gen_key_pair();
    let (_, priv_x) = gen_key_pair();
    let (_, priv_a) = gen_key_pair();
    let did_b = crypto_key_to_did_key(&pub_b);
    let agent = ForienAgent::new(&priv_a, &did_b, None).unwrap();
    assert_eq!(agent.did_string(), did_b);
    let signed_by_peer = Transitable::from_readable("hi").sign(&priv_b).unwrap();
    let signed_by_other = Transitable::from_readable("hi").sign(&priv_x).unwrap();
    assert_eq!(agent.is_sender_of(&signed_by_peer).unwrap(), true);
    assert_eq!(agent.is_sender_of(&signed_by_other).unwrap(), false);
}

#[test]
fn agent_rekey_with_new_peer_keeps_talking() {
    let (mut agent_a, mut agent_b) = mutual_agents();
    let (pub_c, priv_c) = gen_key_pair();
    let (pub_d, priv_d) = gen_key_pair();
    let did_c = crypto_key_to_did_key(&pub_c);
    let did_d = crypto_key_to_did_key(&pub_d);
    agent_a.set_new_shared_key(1, &priv_c, &did_d).unwrap();
    agent_b.set_new_shared_key(1, &priv_d, &did_c).unwrap();
    let (_, ct0) = agent_a.encrypt_for(Transitable::from_readable("old keys")).unwrap();
    let (_, ct1) = agent_a.encrypt_for(Transitable::from_readable("new keys")).unwrap();
    assert_eq!(agent_b.decrypt_for(0, ct0).unwrap().as_readable().unwrap(), "old keys");
    assert_eq!(agent_b.decrypt_for(1, ct1).unwrap().as_readable().unwrap(), "new keys");
}

#[test]
fn emptied_decryptor_refuses_its_index() {
    let (mut agent_a, mut agent_b) = mutual_agents();
    let (_, ciphertext) = agent_a.encrypt_for(Transitable::from_readable("gone")).unwrap();
    agent_b.empty_decryptor(0);
    assert_eq!(
        agent_b.decrypt_for(0, ciphertext).unwrap_err(),
        AwakeError::AlreadyProcessed(0)
    );
}

#[test]
fn verified_mutual_ratchet_law_holds_at_runtime() {
    let payload = Transitable::from_readable("carried across");
    assert!(mutual_ratchet_round_trip(b"a salt", 3, &payload));
}

#[test]
fn mid_lookup_at_matched_index_reports_the_decryption_outcome() {
    let (mut agent_a, mut agent_b) = mutual_agents();
    let (pub_c, priv_c) = gen_key_pair();
    let (pub_d, priv_d) = gen_key_pair();
    let did_c = crypto_key_to_did_key(&pub_c);
    let did_d = crypto_key_to_did_key(&pub_d);
    agent_a.finalize(&priv_c, &did_d, b"shared prefix".to_vec()).unwrap();
    agent_b.finalize(&priv_d, &did_c, b"shared prefix".to_vec()).unwrap();
    let (mid, ciphertext) = agent_a.encrypt_for(Transitable::from_readable("sealed")).unwrap();
    // the mid matches, but a flipped byte cannot authenticate there
    let mut bytes = ciphertext.as_bytes();
    bytes[0] ^= 1;
    let tampered = Transitable::from_bytes(&bytes);
    let r = agent_b.decrypt_with_mid(&mid, tampered);
    assert_eq!(r.unwrap_err(), AwakeError::CipherFailure);
    // intact, the same index still decrypts
    let plain = agent_b.decrypt_with_mid(&mid, ciphertext).unwrap();
    assert_eq!(plain.as_readable().unwrap(), "sealed");
    // a second delivery at the same index is refused as already processed
    let replay = agent_a.encrypt_for(Transitable::from_readable("sealed")).unwrap().1;
    let again = agent_b.decrypt_with_mid(&mid, replay);
    assert!(matches!(again.unwrap_err(), AwakeError::AlreadyProcessed(_)));
}
