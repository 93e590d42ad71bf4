use std::collections::HashMap;

use awake_core::errors::AwakeError;
use awake_core::handshake::Handshake;
use awake_core::json::capabilities_to_value;
use awake_core::transitable::Transitable;
use awake_core::ucan_ecdh_key::UcanEcdhKey;
use awake_core::utils::{gen_key_pair, overwrite_hash_map, UcanCapability};

fn unsigned_json(t: &Transitable) -> serde_json::Value {
    let text = t.unsign().unwrap().as_readable().unwrap();
    serde_json::from_str(&text).unwrap()
}

#[test]
fn can_handler_return() {
    let mut handshaker_requestor = Handshake::new();
    let mut handshaker_responder = Handshake::new();
    let request = handshaker_requestor.request(&vec![]).unwrap();
    let response = handshaker_responder
        .reponse(request, &vec![], 60, |_caps| true)
        .unwrap()
        .unwrap();
    let challenge = handshaker_requestor
        .challenge_response(response, "Arbitrary Pin", |_ucan| true)
        .unwrap()
        .unwrap();
    assert!(challenge.as_readable().is_some());
}

#[test]
fn request_envelope_carries_init_fields() {
    let requestor = Handshake::new();
    let request = requestor.request(&vec![]).unwrap();
    let v = unsigned_json(&request);
    assert_eq!(v["awv"], "0.1.0");
    assert_eq!(v["type"], "awake/init");
    assert!(v["did"].as_str().unwrap().starts_with("did:key:zDn"));
    assert!(v["caps"].is_array());
}

#[test]
fn response_envelope_carries_res_fields() {
    let requestor = Handshake::new();
    let mut responder = Handshake::new();
    let request = requestor.request(&vec![]).unwrap();
    let request_did = unsigned_json(&request)["did"].as_str().unwrap().to_string();
    let response = responder
        .reponse(request, &vec![], 60, |_caps| true)
        .unwrap()
        .unwrap();
    let v = unsigned_json(&response);
    assert_eq!(v["awv"], "0.1.0");
    assert_eq!(v["type"], "awake/res");
    assert_eq!(v["aud"].as_str().unwrap(), request_did);
    assert!(v["iss"].as_str().unwrap().starts_with("did:key:zDn"));
    assert_ne!(v["iss"].as_str().unwrap(), request_did);
    let msg = v["msg"].as_str().unwrap();
    assert!(!msg.is_empty());
    assert!(base64::decode(msg).is_ok());
    assert_eq!(responder.partner_count(), 1);
}

#[test]
fn challenge_envelope_carries_msg_fields() {
    let mut requestor = Handshake::new();
    let mut responder = Handshake::new();
    let request = requestor.request(&vec![]).unwrap();
    let response = responder
        .reponse(request, &vec![], 60, |_caps| true)
        .unwrap()
        .unwrap();
    let challenge = requestor
        .challenge_response(response, "Arbitrary Pin", |_ucan| true)
        .unwrap()
        .unwrap();
    let v = unsigned_json(&challenge);
    assert_eq!(v["awv"], "0.1.0");
    assert_eq!(v["type"], "awake/msg");
    assert!(!v["mid"].as_str().unwrap().is_empty());
    assert!(base64::decode(v["msg"].as_str().unwrap()).is_ok());
}

#[test]
fn responder_issues_a_ucan_with_the_protocol_facts() {
    let mut requestor = Handshake::new();
    let mut responder = Handshake::new();
    let request = requestor.request(&vec![]).unwrap();
    let response = responder
        .reponse(request, &vec![], 60, |_caps| true)
        .unwrap()
        .unwrap();
    // the requestor's challenge succeeds only after it could decrypt,
    // unsign and read the ucan; check the facts through the callback
    let seen_ucan = std::cell::RefCell::new(String::new());
    let challenge = requestor.challenge_response(response, "pin", |ucan| {
        *seen_ucan.borrow_mut() = ucan.to_string();
        true
    });
    assert!(challenge.unwrap().is_some());
    let v: serde_json::Value = serde_json::from_str(&seen_ucan.borrow()).unwrap();
    assert!(v["iss"].as_str().unwrap().starts_with("did:key:zDn"));
    assert!(v["exp"].is_number());
    let facts = v["fct"].as_array().unwrap();
    assert!(facts[0]["awake/nextdid"]
        .as_str()
        .unwrap()
        .starts_with("did:key:zDn"));
    assert_eq!(facts[1]["awake/challenge"], "oob-pin");
}

#[test]
fn respond_rejects_capabilities() {
    let requestor = Handshake::new();
    let mut responder = Handshake::new();
    let request = requestor.request(&vec![]).unwrap();
    let r = responder.reponse(request, &vec![], 60, |_caps| false).unwrap();
    assert!(r.is_none());
    assert_eq!(responder.partner_count(), 0);
}

#[test]
fn respond_rejects_garbage_requests() {
    let mut responder = Handshake::new();
    let garbage = Transitable::from_readable("not a jwt at all");
    let r = responder.reponse(garbage, &vec![], 60, |_caps| true).unwrap();
    assert!(r.is_none());
    assert_eq!(responder.partner_count(), 0);
}

#[test]
fn acknowledge_rejects_pin() {
    let mut requestor = Handshake::new();
    let mut responder = Handshake::new();
    let request = requestor.request(&vec![]).unwrap();
    let response = responder
        .reponse(request, &vec![], 60, |_caps| true)
        .unwrap()
        .unwrap();
    let challenge = requestor
        .challenge_response(response, "Arbitrary Pin", |_ucan| true)
        .unwrap()
        .unwrap();
    let r = responder.acknowledge_challenge(challenge, |_pin| false).unwrap();
    assert!(r.is_none());
    assert!(!responder.is_done());
}

#[test]
fn acknowledge_accepts_and_binds() {
    let mut requestor = Handshake::new();
    let mut responder = Handshake::new();
    let request = requestor.request(&vec![]).unwrap();
    let response = responder
        .reponse(request, &vec![], 60, |_caps| true)
        .unwrap()
        .unwrap();
    let challenge = requestor
        .challenge_response(response, "Arbitrary Pin", |_ucan| true)
        .unwrap()
        .unwrap();
    let ack = responder
        .acknowledge_challenge(challenge, |pin| pin == "Arbitrary Pin")
        .unwrap();
    assert!(ack.is_some());
    assert!(responder.is_done());
    let v = unsigned_json(&ack.unwrap());
    assert_eq!(v["type"], "awake/ack");
    // a bound handshake refuses further steps
    assert_eq!(
        responder.request(&vec![]).unwrap_err(),
        AwakeError::HandshakeClosed
    );
    let another = requestor.request(&vec![]).unwrap();
    assert_eq!(
        responder.reponse(another, &vec![], 60, |_caps| true).unwrap_err(),
        AwakeError::HandshakeClosed
    );
}

#[test]
fn tampered_response_fails_decryption() {
    let mut requestor = Handshake::new();
    let mut responder = Handshake::new();
    let request = requestor.request(&vec![]).unwrap();
    let response = responder
        .reponse(request, &vec![], 60, |_caps| true)
        .unwrap()
        .unwrap();
    let mut v = unsigned_json(&response);
    let msg = v["msg"].as_str().unwrap().to_string();
    let mut chars: Vec<char> = msg.chars().collect();
    chars[0] = if chars[0] == 'B' { 'C' } else { 'B' };
    let tampered_msg: String = chars.into_iter().collect();
    v["msg"] = serde_json::Value::String(tampered_msg);
    let payload = serde_json::to_string(&v).unwrap();
    // the envelope signature is not what the requestor checks here, so a
    // fake jwt shell around the tampered payload is enough
    let fake = format!(
        "{}.{}.{}",
        base64::encode(b"{}"),
        base64::encode(payload.as_bytes()),
        base64::encode(b"sig")
    );
    let r = requestor.challenge_response(Transitable::from_readable(&fake), "pin", |_u| true);
    assert_eq!(r.unwrap_err(), AwakeError::CipherFailure);
}

#[test]
fn capability_lists_serialize_to_json() {
    let caps = vec![
        UcanCapability {
            with: "mailto:someone@example.com".to_string(),
            can: "msg/send".to_string(),
            nb: None,
        },
        UcanCapability {
            with: "odd \"resource\"".to_string(),
            can: "do/anything".to_string(),
            nb: Some("{\"limit\":1}".to_string()),
        },
    ];
    let bytes = capabilities_to_value(&caps);
    let text = String::from_utf8(bytes).unwrap();
    let v: serde_json::Value = serde_json::from_str(&text).unwrap();
    let items = v.as_array().unwrap();
    assert_eq!(items.len(), 2);
    assert_eq!(items[0]["with"], "mailto:someone@example.com");
    assert_eq!(items[0]["can"], "msg/send");
    assert!(items[0]["nb"].is_null());
    assert_eq!(items[1]["with"], "odd \"resource\"");
    assert_eq!(items[1]["nb"], "{\"limit\":1}");
}

#[test]
fn capability_text_with_control_characters_stays_valid_json() {
    let caps = vec![UcanCapability {
        with: "line\nbreak\tand\rmore".to_string(),
        can: "do\u{1}thing".to_string(),
        nb: None,
    }];
    let bytes = capabilities_to_value(&caps);
    let text = String::from_utf8(bytes).unwrap();
    let v: serde_json::Value = serde_json::from_str(&text).unwrap();
    assert_eq!(v[0]["with"], "line\nbreak\tand\rmore");
    assert_eq!(v[0]["can"], "do\u{1}thing");
}

#[test]
fn requests_carry_the_capability_list() {
    let requestor = Handshake::new();
    let caps = vec![UcanCapability {
        with: "wnfs://demo".to_string(),
        can: "fs/read".to_string(),
        nb: None,
    }];
    let request = requestor.request(&caps).unwrap();
    let v = unsigned_json(&request);
    assert_eq!(v["caps"][0]["with"], "wnfs://demo");
    assert_eq!(v["caps"][0]["can"], "fs/read");
}

#[test]
fn overlaying_maps_prefers_the_top() {
    let mut top: HashMap<String, String> = HashMap::new();
    top.insert("a".to_string(), "top-a".to_string());
    top.insert("b".to_string(), "top-b".to_string());
    let mut bot: HashMap<String, String> = HashMap::new();
    bot.insert("b".to_string(), "bot-b".to_string());
    bot.insert("c".to_string(), "bot-c".to_string());
    let out = overwrite_hash_map(&top, &bot);
    assert_eq!(out.len(), 3);
    assert_eq!(out["a"], "top-a");
    assert_eq!(out["b"], "top-b");
    assert_eq!(out["c"], "bot-c");
}

#[test]
fn ucan_key_signs_and_verifies() {
    let (public, private) = gen_key_pair();
    let key = UcanEcdhKey::from(public.clone(), private);
    assert_eq!(key.get_jwt_algorithm_name(), "ES256");
    let did = key.get_did();
    assert!(did.starts_with("did:key:zDn"));
    let sig = key.sign(b"token payload").unwrap();
    let verifier = UcanEcdhKey::from_did(&did).unwrap();
    assert!(verifier.verify(b"token payload", &sig).is_ok());
    assert_eq!(
        verifier.verify(b"other payload", &sig).unwrap_err(),
        AwakeError::CipherFailure
    );
    assert!(verifier.sign(b"anything").is_err());
    assert_eq!(
        UcanEcdhKey::from_did("did:key:zDnbroken0").unwrap_err(),
        AwakeError::MalformedDid
    );
}

#[test]
fn errors_describe_themselves() {
    assert_eq!(AwakeError::MalformedDid.describe(), "malformed did");
    assert_eq!(AwakeError::AlreadyProcessed(7).describe(), "already processed");
    assert_eq!(AwakeError::UnknownMid.describe(), "unknown mid");
}

#[test]
fn acknowledge_ignores_a_challenge_for_another_peer() {
    let mut requestor = Handshake::new();
    let mut responder = Handshake::new();
    let mut bystander = Handshake::new();
    let request = requestor.request(&vec![]).unwrap();
    let response = responder
        .reponse(request, &vec![], 60, |_caps| true)
        .unwrap()
        .unwrap();
    let challenge = requestor
        .challenge_response(response, "Arbitrary Pin", |_ucan| true)
        .unwrap()
        .unwrap();
    // the bystander remembers no matching peer, so its mid matches nothing
    let r = bystander
        .acknowledge_challenge(challenge, |_pin| true)
        .unwrap();
    assert!(r.is_none());
    assert!(!bystander.is_done());
    assert_eq!(bystander.partner_count(), 0);
    // the intended responder is untouched by the bystander's attempt
    assert_eq!(responder.partner_count(), 1);
    assert!(!responder.is_done());
}
