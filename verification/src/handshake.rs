//! The four-step handshake state machine.
//!
//! A requestor's `request` produces a signed `awake/init` envelope. The
//! responder consumes it with `reponse`, derives an ephemeral shared
//! secret, answers with a signed `awake/res` envelope that carries an
//! encrypted UCAN, and remembers the tentative peer. The requestor
//! consumes that with `challenge_response` and answers with a signed
//! `awake/msg` envelope carrying an encrypted PIN proof. The responder
//! consumes that with `acknowledge_challenge` and, when the PIN holds,
//! binds the session.

use vstd::prelude::*;

verus! {

use vstd::pervasive::unreached;
use vstd::string::StrSliceExecFns;
use vstd::utf8::{valid_utf8, decode_utf8, encode_utf8};
use crate::codec::{b64_chars, b64_dec_b, base64_encode};
use crate::errors::AwakeError;
use crate::forien_agent::ForienAgent;
use crate::json::{
    capabilities_to_value,
    caps_json,
    json_escape_b,
    json_get_raw,
    json_get_str,
    json_raw_field,
    json_str_field,
    push_escaped,
    push_lit,
};
use crate::ratchet::{block_iv, block_key, chain_block, lemma_uniform_blocks};
use crate::transitable::{jwt_bytes, jwt_section_spec, Transitable};
use crate::utils::{
    aead_dec,
    aead_enc,
    crypto_key_to_did_key,
    dh_bits,
    did_key_to_crypto_key,
    ecdsa_ok,
    did_to_key_spec,
    ecdsa_sig,
    ecdsa_sign_digest,
    ecdsa_verify_digest,
    gen_key_pair,
    get_message_id,
    key_to_did_spec,
    message_id_spec,
    now_unix_secs,
    parses_priv,
    pub_key_of,
    sha256_digest,
    sha256_of,
    sha512_digest,
    sha512_of,
    u64_dec,
    u64_to_decimal,
    UcanCapability,
    MAX_SEAL_LEN,
};

// ---------------------------------------------------------------------
// The wire shapes, as bytes.
// ---------------------------------------------------------------------

/// The `awake/init` envelope body.
pub open spec fn env_init(did: Seq<char>, caps: Seq<u8>) -> Seq<u8> {
    encode_utf8("{\"awv\":\"0.1.0\",\"type\":\"awake/init\",\"did\":\""@) + json_escape_b(
        encode_utf8(did),
    ) + encode_utf8("\",\"caps\":"@) + caps + encode_utf8("}"@)
}

/// The `awake/res` envelope body.
pub open spec fn env_res(aud: Seq<char>, iss: Seq<char>, msg: Seq<char>) -> Seq<u8> {
    encode_utf8("{\"awv\":\"0.1.0\",\"type\":\"awake/res\",\"aud\":\""@) + json_escape_b(
        encode_utf8(aud),
    ) + encode_utf8("\",\"iss\":\""@) + json_escape_b(encode_utf8(iss)) + encode_utf8(
        "\",\"msg\":\""@,
    ) + json_escape_b(encode_utf8(msg)) + encode_utf8("\"}"@)
}

/// The `awake/msg` envelope body.
pub open spec fn env_msg(mid: Seq<char>, msg: Seq<char>) -> Seq<u8> {
    encode_utf8("{\"awv\":\"0.1.0\",\"type\":\"awake/msg\",\"mid\":\""@) + json_escape_b(
        encode_utf8(mid),
    ) + encode_utf8("\",\"msg\":\""@) + json_escape_b(encode_utf8(msg)) + encode_utf8("\"}"@)
}

/// The `awake/ack` envelope body, closing the handshake.
pub open spec fn env_ack(iss: Seq<char>) -> Seq<u8> {
    encode_utf8("{\"awv\":\"0.1.0\",\"type\":\"awake/ack\",\"iss\":\""@) + json_escape_b(
        encode_utf8(iss),
    ) + encode_utf8("\"}"@)
}

/// The PIN proof carried inside the challenge.
pub open spec fn challenge_body(pin: Seq<char>, did: Seq<char>, sig: Seq<char>) -> Seq<u8> {
    encode_utf8("{\"pin\":\""@) + json_escape_b(encode_utf8(pin)) + encode_utf8("\",\"did\":\""@)
        + json_escape_b(encode_utf8(did)) + encode_utf8("\",\"sig\":\""@) + json_escape_b(
        encode_utf8(sig),
    ) + encode_utf8("\"}"@)
}

/// The UCAN payload the responder issues: its identity, the peer as
/// audience, a lifetime, and the two facts the protocol needs.
pub open spec fn ucan_payload(
    iss: Seq<char>,
    aud: Seq<char>,
    exp: u64,
    nextdid: Seq<char>,
    caps: Seq<u8>,
) -> Seq<u8> {
    encode_utf8("{\"iss\":\""@) + json_escape_b(encode_utf8(iss)) + encode_utf8("\",\"aud\":\""@)
        + json_escape_b(encode_utf8(aud)) + encode_utf8("\",\"exp\":"@) + encode_utf8(
        u64_dec(exp as nat),
    ) + encode_utf8(",\"att\":[],\"fct\":[{\"awake/nextdid\":\""@) + json_escape_b(
        encode_utf8(nextdid),
    ) + encode_utf8("\"},{\"awake/challenge\":\"oob-pin\",\"caps\":"@) + caps + encode_utf8(
        "}],\"prf\":[]}"@,
    )
}

// ---------------------------------------------------------------------
// What the steps produce, given what they read.
// ---------------------------------------------------------------------

/// The readable text under a signed envelope, when there is one.
pub open spec fn unsigned_text(t: Seq<u8>) -> Option<Seq<char>> {
    match jwt_section_spec(t, 1) {
        Some(p) => if valid_utf8(p) {
            Some(decode_utf8(p))
        } else {
            None
        },
        None => None,
    }
}

/// Saturating addition of two 64-bit counters.
pub open spec fn sat_add64(a: u64, b: u64) -> u64 {
    if a + b > u64::MAX {
        u64::MAX
    } else {
        (a + b) as u64
    }
}

/// The raw JSON of a request's `caps` field as handed to the host: the
/// field's rendering, or the text `null` when it is absent.
pub open spec fn request_caps_text(t: Seq<u8>) -> Seq<char> {
    match unsigned_text(t) {
        Some(doc) => match json_raw_field(doc, "caps"@) {
            Some(c) => c,
            None => "null"@,
        },
        None => "null"@,
    }
}

/// A string field of the JSON under a signed envelope.
pub open spec fn env_field(t: Seq<u8>, key: Seq<char>) -> Option<Seq<char>> {
    match unsigned_text(t) {
        Some(doc) => json_str_field(doc, key),
        None => None,
    }
}

/// The ciphertext sealed into a response's `msg` field, when the field
/// is present and base64.
pub open spec fn response_cipher(t: Seq<u8>) -> Option<Seq<u8>> {
    match env_field(t, "msg"@) {
        Some(m) => b64_dec_b(encode_utf8(m)),
        None => None,
    }
}

/// What opening a response's sealed ucan at index 0 gives the requestor
/// whose step-2 keys are supplied.
pub open spec fn response_opened(st2priv: Seq<u8>, st2pub: Seq<u8>, t: Seq<u8>) -> Option<Seq<u8>> {
    let peer = env_field(t, "iss"@).unwrap();
    let salt = encode_utf8(key_to_did_spec(st2pub));
    let block = agent_block0(st2priv, peer, salt);
    match response_cipher(t) {
        Some(ct) => aead_dec(block_key(block), block_iv(block), ct),
        None => None,
    }
}

/// The readable payload text of the decrypted, unsigned ucan.
pub open spec fn response_ucan_text(st2priv: Seq<u8>, st2pub: Seq<u8>, t: Seq<u8>) -> Option<
    Seq<char>,
> {
    match response_opened(st2priv, st2pub, t) {
        Some(u) => (match jwt_section_spec(u, 1) {
            Some(p) => if valid_utf8(p) {
                Some(decode_utf8(p))
            } else {
                None
            },
            None => None,
        }),
        None => None,
    }
}

/// Element 0's derivation block of a ratchet seeded against a peer DID.
pub open spec fn agent_block0(st2priv: Seq<u8>, peer_did: Seq<char>, salt: Seq<u8>) -> Seq<u8> {
    chain_block(dh_bits(pub_key_of(st2priv), did_to_key_spec(peer_did).unwrap()), salt, 0)
}

/// What sealing a plaintext at index 0 of such a ratchet produces.
#[verifier::opaque]
pub open spec fn seal0(st2priv: Seq<u8>, peer_did: Seq<char>, salt: Seq<u8>, pt: Seq<u8>) -> Seq<
    u8,
> {
    aead_enc(
        block_key(agent_block0(st2priv, peer_did, salt)),
        block_iv(agent_block0(st2priv, peer_did, salt)),
        pt,
    )
}

/// The signed UCAN JWT the responder issues.
#[verifier::opaque]
pub open spec fn ucan_jwt_spec(
    real_priv: Seq<u8>,
    peer_did: Seq<char>,
    exp: u64,
    nextdid: Seq<char>,
    caps: Seq<u8>,
) -> Seq<u8> {
    jwt_bytes(
        ucan_payload(key_to_did_spec(pub_key_of(real_priv)), peer_did, exp, nextdid, caps),
        real_priv,
    )
}

/// The signed `awake/res` envelope the responder produces for a given
/// expiry instant.
#[verifier::opaque]
pub open spec fn respond_output(
    st2priv: Seq<u8>,
    st4pub: Seq<u8>,
    real_priv: Seq<u8>,
    peer_did: Seq<char>,
    caps: Seq<u8>,
    exp: u64,
) -> Seq<u8> {
    jwt_bytes(
        env_res(
            peer_did,
            key_to_did_spec(pub_key_of(st2priv)),
            b64_chars(
                seal0(
                    st2priv,
                    peer_did,
                    encode_utf8(peer_did),
                    ucan_jwt_spec(real_priv, peer_did, exp, key_to_did_spec(st4pub), caps),
                ),
            ),
        ),
        real_priv,
    )
}

/// The signed `awake/msg` envelope the requestor produces from the
/// peer's step-2 DID, the peer's real DID, and the out-of-band PIN.
#[verifier::opaque]
pub open spec fn challenge_output(
    st2priv: Seq<u8>,
    real_priv: Seq<u8>,
    peer_did: Seq<char>,
    peer_real_did: Seq<char>,
    pin: Seq<char>,
) -> Seq<u8> {
    jwt_bytes(
        env_msg(
            b64_chars(
                message_id_spec(pub_key_of(st2priv), did_to_key_spec(peer_did).unwrap(), None),
            ),
            b64_chars(
                seal0(
                    st2priv,
                    peer_did,
                    encode_utf8(key_to_did_spec(pub_key_of(st2priv))),
                    challenge_body(
                        pin,
                        key_to_did_spec(pub_key_of(real_priv)),
                        b64_chars(
                            ecdsa_sig(
                                real_priv,
                                sha512_of(
                                    sha256_of(
                                        did_to_key_spec(peer_real_did).unwrap() + encode_utf8(pin),
                                    ),
                                ),
                            ),
                        ),
                    ),
                ),
            ),
        ),
        real_priv,
    )
}

/// Whether the UCAN a responder would issue toward a peer stays within
/// the cipher's plaintext cap, whatever instant the clock reads.
pub open spec fn ucan_fits(
    real_priv: Seq<u8>,
    peer_did: Seq<char>,
    nextdid: Seq<char>,
    caps: Seq<u8>,
    lifetime: u64,
) -> bool {
    forall|now: u64|
        #[trigger] ucan_jwt_spec(
            real_priv,
            peer_did,
            sat_add64(now, lifetime),
            nextdid,
            caps,
        ).len() <= MAX_SEAL_LEN
}

/// The PIN proof a requestor seals into its challenge, before
/// encryption: the pin, the requestor's real DID, and the signature
/// laid over the peer's real key and the pin.
pub open spec fn challenge_plain(real_priv: Seq<u8>, peer_real_key: Seq<u8>, pin: Seq<char>) -> Seq<
    u8,
> {
    challenge_body(
        pin,
        key_to_did_spec(pub_key_of(real_priv)),
        b64_chars(ecdsa_sig(real_priv, sha512_of(sha256_of(peer_real_key + encode_utf8(pin))))),
    )
}

/// Whether a decrypted PIN proof stands: its three fields are present,
/// its DID and signature decode, and the signature validates over the
/// responder's real key and the pin.
pub open spec fn ack_msg_sig_ok(real_pub: Seq<u8>, msg: Seq<char>) -> bool {
    let pin = json_str_field(msg, "pin"@);
    let did = json_str_field(msg, "did"@);
    let sig = json_str_field(msg, "sig"@);
    &&& pin is Some
    &&& did is Some
    &&& sig is Some
    &&& b64_dec_b(encode_utf8(sig.unwrap())) is Some
    &&& did_to_key_spec(did.unwrap()) is Some
    &&& ecdsa_ok(
        did_to_key_spec(did.unwrap()).unwrap(),
        sha512_of(sha256_of(real_pub + encode_utf8(pin.unwrap()))),
        b64_dec_b(encode_utf8(sig.unwrap())).unwrap(),
    )
}

// ---------------------------------------------------------------------
// Envelope builders.
// ---------------------------------------------------------------------

fn build_env_init(did: &str, caps: &Vec<u8>) -> (r: Vec<u8>)
    ensures
        r@ == env_init(did@, caps@),
{
    let mut out: Vec<u8> = Vec::new();
    push_lit(&mut out, "{\"awv\":\"0.1.0\",\"type\":\"awake/init\",\"did\":\"");
    push_escaped(&mut out, did);
    push_lit(&mut out, "\",\"caps\":");
    out.extend_from_slice(caps.as_slice());
    push_lit(&mut out, "}");
    proof {
        assert(out@ =~= env_init(did@, caps@));
    }
    out
}

fn build_env_res(aud: &str, iss: &str, msg: &str) -> (r: Vec<u8>)
    ensures
        r@ == env_res(aud@, iss@, msg@),
{
    let mut out: Vec<u8> = Vec::new();
    push_lit(&mut out, "{\"awv\":\"0.1.0\",\"type\":\"awake/res\",\"aud\":\"");
    push_escaped(&mut out, aud);
    push_lit(&mut out, "\",\"iss\":\"");
    push_escaped(&mut out, iss);
    push_lit(&mut out, "\",\"msg\":\"");
    push_escaped(&mut out, msg);
    push_lit(&mut out, "\"}");
    proof {
        assert(out@ =~= env_res(aud@, iss@, msg@));
    }
    out
}

fn build_env_msg(mid: &str, msg: &str) -> (r: Vec<u8>)
    ensures
        r@ == env_msg(mid@, msg@),
{
    let mut out: Vec<u8> = Vec::new();
    push_lit(&mut out, "{\"awv\":\"0.1.0\",\"type\":\"awake/msg\",\"mid\":\"");
    push_escaped(&mut out, mid);
    push_lit(&mut out, "\",\"msg\":\"");
    push_escaped(&mut out, msg);
    push_lit(&mut out, "\"}");
    proof {
        assert(out@ =~= env_msg(mid@, msg@));
    }
    out
}

fn build_env_ack(iss: &str) -> (r: Vec<u8>)
    ensures
        r@ == env_ack(iss@),
{
    let mut out: Vec<u8> = Vec::new();
    push_lit(&mut out, "{\"awv\":\"0.1.0\",\"type\":\"awake/ack\",\"iss\":\"");
    push_escaped(&mut out, iss);
    push_lit(&mut out, "\"}");
    proof {
        assert(out@ =~= env_ack(iss@));
    }
    out
}

fn build_challenge_body(pin: &str, did: &str, sig: &str) -> (r: Vec<u8>)
    ensures
        r@ == challenge_body(pin@, did@, sig@),
{
    let mut out: Vec<u8> = Vec::new();
    push_lit(&mut out, "{\"pin\":\"");
    push_escaped(&mut out, pin);
    push_lit(&mut out, "\",\"did\":\"");
    push_escaped(&mut out, did);
    push_lit(&mut out, "\",\"sig\":\"");
    push_escaped(&mut out, sig);
    push_lit(&mut out, "\"}");
    proof {
        assert(out@ =~= challenge_body(pin@, did@, sig@));
    }
    out
}

fn build_ucan_payload(iss: &str, aud: &str, exp: u64, nextdid: &str, caps: &Vec<u8>) -> (r: Vec<
    u8,
>)
    ensures
        r@ == ucan_payload(iss@, aud@, exp, nextdid@, caps@),
{
    let mut out: Vec<u8> = Vec::new();
    push_lit(&mut out, "{\"iss\":\"");
    push_escaped(&mut out, iss);
    push_lit(&mut out, "\",\"aud\":\"");
    push_escaped(&mut out, aud);
    push_lit(&mut out, "\",\"exp\":");
    let exp_text = u64_to_decimal(exp);
    out.extend_from_slice(exp_text.as_str().as_bytes());
    push_lit(&mut out, ",\"att\":[],\"fct\":[{\"awake/nextdid\":\"");
    push_escaped(&mut out, nextdid);
    push_lit(&mut out, "\"},{\"awake/challenge\":\"oob-pin\",\"caps\":");
    out.extend_from_slice(caps.as_slice());
    push_lit(&mut out, "}],\"prf\":[]}");
    proof {
        assert(out@ =~= ucan_payload(iss@, aud@, exp, nextdid@, caps@));
    }
    out
}

// ---------------------------------------------------------------------
// The state machine.
// ---------------------------------------------------------------------

/// One side of a handshake: three keypairs, the tentative peers, and
/// the bound session once the handshake completes.
pub struct Handshake {
    final_agent: Option<ForienAgent>,
    step_2_public: Vec<u8>,
    step_2_private: Vec<u8>,
    step_4_public: Vec<u8>,
    step_4_private: Vec<u8>,
    real_public: Vec<u8>,
    real_private: Vec<u8>,
    potential_partners: Vec<(String, ForienAgent)>,
    warnings: Vec<String>,
}

impl Handshake {
    /// Whether the handshake has bound its session.
    pub closed spec fn done_spec(&self) -> bool {
        self.final_agent is Some
    }

    /// The step-2 (first ephemeral) public key.
    pub closed spec fn step2_pub_spec(&self) -> Seq<u8> {
        self.step_2_public@
    }

    /// The step-2 private key.
    pub closed spec fn step2_priv_spec(&self) -> Seq<u8> {
        self.step_2_private@
    }

    /// The step-4 (second ephemeral) public key.
    pub closed spec fn step4_pub_spec(&self) -> Seq<u8> {
        self.step_4_public@
    }

    /// The long-lived identity public key.
    pub closed spec fn real_pub_spec(&self) -> Seq<u8> {
        self.real_public@
    }

    /// The long-lived identity private key.
    pub closed spec fn real_priv_spec(&self) -> Seq<u8> {
        self.real_private@
    }

    /// How many tentative peers are remembered.
    pub closed spec fn partners_count(&self) -> int {
        self.potential_partners@.len() as int
    }

    /// Whether a tentative peer is remembered under this DID.
    pub closed spec fn has_partner(&self, did: Seq<char>) -> bool {
        exists|i: int|
            0 <= i < self.potential_partners@.len() && (#[trigger] self.potential_partners@[i]).0@
                == did
    }

    /// The index of the tentative peer remembered under a DID.
    pub closed spec fn partner_idx(&self, did: Seq<char>) -> int {
        choose|i: int|
            0 <= i < self.potential_partners@.len() && (#[trigger] self.potential_partners@[i]).0@
                == did
    }

    /// The tentative peer remembered under a DID.
    pub closed spec fn partner(&self, did: Seq<char>) -> ForienAgent {
        self.potential_partners@[self.partner_idx(did)].1
    }

    /// The message id that tentative peer `i` derives for this exchange.
    pub closed spec fn partner_mid(&self, i: int) -> Seq<char> {
        b64_chars(
            message_id_spec(
                did_to_key_spec(self.potential_partners@[i].0@).unwrap(),
                self.step2_pub_spec(),
                None,
            ),
        )
    }

    /// The first remembered peer whose derived message id equals `mid`,
    /// or the partner count when none does.
    pub closed spec fn first_mid_match(&self, mid: Seq<char>, from: int) -> int
        decreases self.partners_count() - from,
    {
        if from >= self.potential_partners@.len() {
            self.potential_partners@.len() as int
        } else if from < 0 {
            0
        } else if self.partner_mid(from) == mid {
            from
        } else {
            self.first_mid_match(mid, from + 1)
        }
    }

    /// Whether some remembered peer derives the challenge's mid.
    pub closed spec fn ack_has_match(&self, t: Seq<u8>) -> bool {
        env_field(t, "mid"@) is Some && self.first_mid_match(env_field(t, "mid"@).unwrap(), 0)
            < self.partners_count()
    }

    /// What opening the challenge's sealed proof at the matched peer's
    /// receive index 0 gives.
    pub closed spec fn ack_opened(&self, t: Seq<u8>) -> Option<Seq<u8>> {
        let a = self.potential_partners@[self.first_mid_match(
            env_field(t, "mid"@).unwrap(),
            0,
        )].1;
        match (match env_field(t, "msg"@) {
            Some(m) => b64_dec_b(encode_utf8(m)),
            None => None,
        }) {
            Some(ct) => aead_dec(a.recv_chain().key_at(0), a.recv_chain().iv_at(0), ct),
            None => None,
        }
    }

    /// Whether the matched peer's receive index 0 is still unused.
    pub closed spec fn ack_partner_fresh(&self, t: Seq<u8>) -> bool {
        !self.potential_partners@[self.first_mid_match(
            env_field(t, "mid"@).unwrap(),
            0,
        )].1.recv_chain().used(0)
    }

    /// The readable text of the opened proof.
    pub closed spec fn ack_msg_text(&self, t: Seq<u8>) -> Option<Seq<char>> {
        match self.ack_opened(t) {
            Some(b) => if valid_utf8(b) {
                Some(decode_utf8(b))
            } else {
                None
            },
            None => None,
        }
    }

    /// Keys are coherent while the handshake is open; all remembered
    /// agents are well formed and sit under valid DIDs, each at most
    /// once.
    pub closed spec fn wf(&self) -> bool {
        &&& (self.final_agent matches Some(a) ==> a.wf())
        &&& (forall|i: int|
            0 <= i < self.potential_partners@.len() ==> (#[trigger] self.potential_partners@[i]).1.wf())
        &&& (forall|i: int|
            0 <= i < self.potential_partners@.len() ==> did_to_key_spec(
                (#[trigger] self.potential_partners@[i]).0@,
            ) is Some)
        &&& (forall|i: int|
            0 <= i < self.potential_partners@.len() ==> (
            #[trigger] self.potential_partners@[i]).1.send_chain().size() <= 1)
        &&& (forall|i: int|
            0 <= i < self.potential_partners@.len() ==> (
            #[trigger] self.potential_partners@[i]).1.recv_chain().size() <= 1)
        &&& (forall|i: int|
            0 <= i < self.potential_partners@.len() ==> (
            #[trigger] self.potential_partners@[i]).1.did_spec()
                == self.potential_partners@[i].0@)
        &&& (forall|i: int, j: int|
            0 <= i < self.potential_partners@.len() && 0 <= j
                < self.potential_partners@.len() && i != j ==> (
            #[trigger] self.potential_partners@[i]).0@ != (
            #[trigger] self.potential_partners@[j]).0@)
        &&& (self.final_agent is None ==> {
            &&& parses_priv(self.step_2_private@)
            &&& self.step_2_public@ == pub_key_of(self.step_2_private@)
            &&& parses_priv(self.step_4_private@)
            &&& self.step_4_public@ == pub_key_of(self.step_4_private@)
            &&& parses_priv(self.real_private@)
            &&& self.real_public@ == pub_key_of(self.real_private@)
        })
    }

    /// Open a fresh handshake with three newly drawn keypairs.
    pub fn new() -> (r: Handshake)
        ensures
            r.wf(),
            !r.done_spec(),
            r.partners_count() == 0,
    {
        let (step_2_public, step_2_private) = gen_key_pair();
        let (step_4_public, step_4_private) = gen_key_pair();
        let (real_public, real_private) = gen_key_pair();
        Handshake {
            final_agent: None,
            step_2_public,
            step_2_private,
            step_4_public,
            step_4_private,
            real_public,
            real_private,
            potential_partners: Vec::new(),
            warnings: Vec::new(),
        }
    }

    /// Whether the handshake has bound its session.
    pub fn is_done(&self) -> (r: bool)
        ensures
            r == self.done_spec(),
    {
        self.final_agent.is_some()
    }

    /// How many tentative peers are currently remembered.
    pub fn partner_count(&self) -> (r: usize)
        ensures
            r == self.partners_count(),
    {
        self.potential_partners.len()
    }

    /// The diagnostics written so far.
    pub fn warnings(&self) -> &Vec<String> {
        &self.warnings
    }

    /// Step 1: produce the signed `awake/init` envelope that opens a
    /// handshake, carrying our step-2 DID and capability wishes.
    pub fn request(&self, capabilities: &Vec<UcanCapability>) -> (r: Result<
        Transitable,
        AwakeError,
    >)
        requires
            self.wf(),
        ensures
            self.done_spec() ==> r == Err::<Transitable, AwakeError>(AwakeError::HandshakeClosed),
            !self.done_spec() ==> r is Ok && r.unwrap()@ == jwt_bytes(
                env_init(key_to_did_spec(self.step2_pub_spec()), caps_json(capabilities@)),
                self.real_priv_spec(),
            ),
    {
        if self.is_done() {
            return Err(AwakeError::HandshakeClosed);
        }
        let did = crypto_key_to_did_key(self.step_2_public.as_slice());
        let caps = capabilities_to_value(capabilities);
        let body = build_env_init(did.as_str(), &caps);
        match Transitable::from_bytes(body.as_slice()).sign(self.real_private.as_slice()) {
            Ok(t) => Ok(t),
            Err(_) => unreached(),
        }
    }

    /// Step 2: consume a request, judge the requestor's capabilities
    /// through the host's callback, and on acceptance answer with the
    /// signed `awake/res` envelope and remember the tentative peer.
    #[verifier::rlimit(100)]
    pub fn reponse<F: Fn(&str) -> bool>(
        &mut self,
        request_signed: Transitable,
        capabilities: &Vec<UcanCapability>,
        lifetime: u64,
        are_capabilities_valid: F,
    ) -> (r: Result<Option<Transitable>, AwakeError>)
        requires
            old(self).wf(),
            forall|s: &str| are_capabilities_valid.requires((s,)),
        ensures
            final(self).wf(),
            final(self).done_spec() == old(self).done_spec(),
            old(self).done_spec() ==> r == Err::<Option<Transitable>, AwakeError>(
                AwakeError::HandshakeClosed,
            ) && *final(self) == *old(self),
            !old(self).done_spec() ==> !(r is Err),
            !old(self).done_spec() && env_field(request_signed@, "did"@) is None ==> r == Ok::<
                Option<Transitable>,
                AwakeError,
            >(None) && final(self).partners_count() == old(self).partners_count(),
            !old(self).done_spec() && env_field(request_signed@, "did"@) is Some
                && did_to_key_spec(env_field(request_signed@, "did"@).unwrap()) is Some && (
            forall|s: &str, b: bool|
                s@ == request_caps_text(request_signed@) && are_capabilities_valid.ensures(
                    (s,),
                    b,
                ) ==> b) && ucan_fits(
                old(self).real_priv_spec(),
                env_field(request_signed@, "did"@).unwrap(),
                key_to_did_spec(old(self).step4_pub_spec()),
                caps_json(capabilities@),
                lifetime,
            ) ==> r matches Ok(Some(_)),
            r matches Ok(Some(t)) ==> {
                &&& env_field(request_signed@, "did"@) is Some
                &&& did_to_key_spec(env_field(request_signed@, "did"@).unwrap()) is Some
                &&& (exists|s: &str|
                    s@ == request_caps_text(request_signed@) && are_capabilities_valid.ensures(
                        (s,),
                        true,
                    ))
                &&& (exists|now: u64|
                    t@ == respond_output(
                        old(self).step2_priv_spec(),
                        old(self).step4_pub_spec(),
                        old(self).real_priv_spec(),
                        env_field(request_signed@, "did"@).unwrap(),
                        caps_json(capabilities@),
                        sat_add64(now, lifetime),
                    ))
                &&& final(self).has_partner(env_field(request_signed@, "did"@).unwrap())
                &&& ({
                    let did = env_field(request_signed@, "did"@).unwrap();
                    let shared = dh_bits(
                        pub_key_of(old(self).step2_priv_spec()),
                        did_to_key_spec(did).unwrap(),
                    );
                    let salt = encode_utf8(did);
                    let a = final(self).partner(did);
                    &&& a.did_spec() == did
                    &&& a.prefix() is None
                    &&& a.send_count() == 1
                    &&& a.send_chain().uniform(shared, salt)
                    &&& a.recv_chain().uniform(shared, salt)
                    &&& a.send_chain().size() == 1
                    &&& a.recv_chain().size() == 1
                    &&& a.send_chain().used(0)
                    &&& !a.recv_chain().used(0)
                })
            },
            r matches Ok(None) ==> final(self).partners_count() == old(self).partners_count(),
            r matches Ok(None) ==> (env_field(request_signed@, "did"@) is None || did_to_key_spec(
                env_field(request_signed@, "did"@).unwrap(),
            ) is None || (exists|s: &str|
                s@ == request_caps_text(request_signed@) && are_capabilities_valid.ensures(
                    (s,),
                    false,
                )) || !ucan_fits(
                old(self).real_priv_spec(),
                env_field(request_signed@, "did"@).unwrap(),
                key_to_did_spec(old(self).step4_pub_spec()),
                caps_json(capabilities@),
                lifetime,
            )),
    {
        if self.is_done() {
            return Err(AwakeError::HandshakeClosed);
        }
        let request = match request_signed.unsign() {
            Ok(t) => t,
            Err(_) => {
                self.warnings.push("handshake request is not a well-formed jwt".to_owned());
                return Ok(None);
            },
        };
        let request_str = match request.as_readable() {
            Some(s) => s,
            None => {
                self.warnings.push("handshake request payload is not readable text".to_owned());
                return Ok(None);
            },
        };
        let forien_did_key = match json_get_str(request_str.as_str(), "did") {
            Some(d) => d,
            None => {
                self.warnings.push("handshake request holds no did field".to_owned());
                return Ok(None);
            },
        };

        // judge the requestor's capabilities
        let forien_caps = match json_get_raw(request_str.as_str(), "caps") {
            Some(c) => c,
            None => "null".to_owned(),
        };
        proof {
            assert(forien_caps@ == request_caps_text(request_signed@));
        }
        let caps_ok = are_capabilities_valid(forien_caps.as_str());
        if !caps_ok {
            self.warnings.push("failed to verify sender's capabilities".to_owned());
            return Ok(None);
        }

        // open the tentative session
        let mut agent = match ForienAgent::new(
            self.step_2_private.as_slice(),
            forien_did_key.as_str(),
            None,
        ) {
            Ok(a) => a,
            Err(_) => {
                proof {
                    assert(did_to_key_spec(forien_did_key@) is None);
                }
                self.warnings.push("handshake request did is malformed".to_owned());
                return Ok(None);
            },
        };

        // issue the capability proof and hold it to the cipher's cap
        let (ucan_jwt, exp_g) = self.issue_ucan(forien_did_key.as_str(), capabilities, lifetime);
        let ghost exp = exp_g@;
        if ucan_jwt.as_slice().len() as u64 > MAX_SEAL_LEN {
            proof {
                let now0 = choose|now: u64| exp == sat_add64(now, lifetime);
                assert(ucan_jwt_spec(
                    old(self).real_priv_spec(),
                    forien_did_key@,
                    sat_add64(now0, lifetime),
                    key_to_did_spec(old(self).step4_pub_spec()),
                    caps_json(capabilities@),
                ).len() > MAX_SEAL_LEN);
            }
            self.warnings.push("issued ucan exceeds the cipher's plaintext cap".to_owned());
            return Ok(None);
        }
        let response = self.respond_accepted(
            agent,
            forien_did_key,
            ucan_jwt,
            Ghost(caps_json(capabilities@)),
            Ghost(exp),
        );
        proof {
            let now0 = choose|now: u64| exp == sat_add64(now, lifetime);
            assert(response@ == respond_output(
                old(self).step2_priv_spec(),
                old(self).step4_pub_spec(),
                old(self).real_priv_spec(),
                forien_did_key@,
                caps_json(capabilities@),
                sat_add64(now0, lifetime),
            ));
        }
        Ok(Some(response))
    }

    /// Issue the signed UCAN toward a peer: our real identity as issuer,
    /// the peer as audience, expiry the clock plus the lifetime, and the
    /// two protocol facts.
    #[verifier::rlimit(100)]
    fn issue_ucan(&self, forien_did_key: &str, capabilities: &Vec<UcanCapability>, lifetime: u64)
        -> (r: (Transitable, Ghost<u64>))
        requires
            self.wf(),
            !self.done_spec(),
        ensures
            r.0@ == ucan_jwt_spec(
                self.real_priv_spec(),
                forien_did_key@,
                r.1@,
                key_to_did_spec(self.step4_pub_spec()),
                caps_json(capabilities@),
            ),
            exists|now: u64| r.1@ == sat_add64(now, lifetime),
    {
        let real_did = crypto_key_to_did_key(self.real_public.as_slice());
        let next_did = crypto_key_to_did_key(self.step_4_public.as_slice());
        let my_caps = capabilities_to_value(capabilities);
        let now = now_unix_secs();
        let exp = if now <= u64::MAX - lifetime {
            now + lifetime
        } else {
            u64::MAX
        };
        proof {
            assert(exp == sat_add64(now, lifetime));
        }
        let ucan_body = build_ucan_payload(
            real_did.as_str(),
            forien_did_key,
            exp,
            next_did.as_str(),
            &my_caps,
        );
        let ucan_jwt = match Transitable::from_bytes(ucan_body.as_slice()).sign(
            self.real_private.as_slice(),
        ) {
            Ok(t) => t,
            Err(_) => unreached(),
        };
        proof {
            reveal(ucan_jwt_spec);
        }
        (ucan_jwt, Ghost(exp))
    }

    /// The accepted half of step 2: seal the issued UCAN into the fresh
    /// session, remember the peer, and build the signed answer.
    #[verifier::rlimit(100)]
    fn respond_accepted(
        &mut self,
        agent: ForienAgent,
        forien_did_key: String,
        ucan_jwt: Transitable,
        caps: Ghost<Seq<u8>>,
        exp: Ghost<u64>,
    ) -> (r: Transitable)
        requires
            old(self).wf(),
            !old(self).done_spec(),
            did_to_key_spec(forien_did_key@) is Some,
            ucan_jwt@ == ucan_jwt_spec(
                old(self).real_priv_spec(),
                forien_did_key@,
                exp@,
                key_to_did_spec(old(self).step4_pub_spec()),
                caps@,
            ),
            ucan_jwt@.len() <= MAX_SEAL_LEN,
            agent.wf(),
            agent.did_spec() == forien_did_key@,
            agent.prefix() is None,
            agent.send_count() == 0,
            agent.send_chain().size() == 1,
            agent.recv_chain().size() == 1,
            !agent.send_chain().used(0),
            !agent.recv_chain().used(0),
            agent.send_chain().uniform(
                dh_bits(
                    pub_key_of(old(self).step2_priv_spec()),
                    did_to_key_spec(forien_did_key@).unwrap(),
                ),
                encode_utf8(forien_did_key@),
            ),
            agent.recv_chain().uniform(
                dh_bits(
                    pub_key_of(old(self).step2_priv_spec()),
                    did_to_key_spec(forien_did_key@).unwrap(),
                ),
                encode_utf8(forien_did_key@),
            ),
        ensures
            final(self).wf(),
            final(self).done_spec() == old(self).done_spec(),
            r@ == respond_output(
                old(self).step2_priv_spec(),
                old(self).step4_pub_spec(),
                old(self).real_priv_spec(),
                forien_did_key@,
                caps@,
                exp@,
            ),
            final(self).has_partner(forien_did_key@),
            ({
                let shared = dh_bits(
                    pub_key_of(old(self).step2_priv_spec()),
                    did_to_key_spec(forien_did_key@).unwrap(),
                );
                let salt = encode_utf8(forien_did_key@);
                let a = final(self).partner(forien_did_key@);
                &&& a.did_spec() == forien_did_key@
                &&& a.prefix() is None
                &&& a.send_count() == 1
                &&& a.send_chain().uniform(shared, salt)
                &&& a.recv_chain().uniform(shared, salt)
                &&& a.send_chain().size() == 1
                &&& a.recv_chain().size() == 1
                &&& a.send_chain().used(0)
                &&& !a.recv_chain().used(0)
            }),
    {
        let mut agent = agent;
        let self_did = crypto_key_to_did_key(self.step_2_public.as_slice());
        let ghost ucan_bytes = ucan_jwt@;
        let encrypted_ucan = match agent.encrypt_for(ucan_jwt) {
            Ok((_, ct)) => ct,
            Err(_) => unreached(),
        };
        proof {
            let shared = dh_bits(
                pub_key_of(old(self).step2_priv_spec()),
                did_to_key_spec(forien_did_key@).unwrap(),
            );
            let salt = encode_utf8(forien_did_key@);
            assert(agent.send_chain().uniform(shared, salt));
            agent.lemma_wf_parts();
            lemma_uniform_blocks(&agent.send_chain(), shared, salt, 0);
            reveal(seal0);
            assert(encrypted_ucan@ == seal0(
                old(self).step2_priv_spec(),
                forien_did_key@,
                salt,
                ucan_bytes,
            ));
        }
        let msg_b64 = encrypted_ucan.as_base64();
        proof {
            let shared = dh_bits(
                pub_key_of(old(self).step2_priv_spec()),
                did_to_key_spec(forien_did_key@).unwrap(),
            );
            let salt = encode_utf8(forien_did_key@);
            assert(agent.recv_chain().uniform(shared, salt));
            assert(agent.send_chain().used(0));
            assert(!agent.recv_chain().used(0));
            assert(agent.send_chain().size() == 1);
            assert(agent.recv_chain().size() == 1);
            assert(agent.send_count() == 1);
            assert(agent.prefix() is None);
            assert(agent.did_spec() == forien_did_key@);
        }
        let ghost stored = agent;
        self.insert_partner(forien_did_key.clone(), agent);
        proof {
            assert(final(self).partner(forien_did_key@) == stored) by {
                assert(self.partner(forien_did_key@) == stored);
            }
        }

        // answer
        let body = build_env_res(forien_did_key.as_str(), self_did.as_str(), msg_b64.as_str());
        let response = match Transitable::from_bytes(body.as_slice()).sign(
            self.real_private.as_slice(),
        ) {
            Ok(t) => t,
            Err(_) => unreached(),
        };
        proof {
            reveal(seal0);
            reveal(respond_output);
            assert(body@ == env_res(forien_did_key@, self_did@, msg_b64@));
            assert(response@ == jwt_bytes(body@, old(self).real_priv_spec()));
            assert(response@ == respond_output(
                old(self).step2_priv_spec(),
                old(self).step4_pub_spec(),
                old(self).real_priv_spec(),
                forien_did_key@,
                caps@,
                exp@,
            ));
        }
        response
    }

    /// Remember a tentative peer, overwriting any earlier entry under
    /// the same DID.
    fn insert_partner(&mut self, did: String, agent: ForienAgent)
        requires
            old(self).wf(),
            agent.wf(),
            did_to_key_spec(did@) is Some,
            agent.send_chain().size() <= 1,
            agent.recv_chain().size() <= 1,
            agent.did_spec() == did@,
        ensures
            final(self).wf(),
            final(self).has_partner(did@),
            final(self).partner(did@) == agent,
            final(self).done_spec() == old(self).done_spec(),
            final(self).step2_priv_spec() == old(self).step2_priv_spec(),
            final(self).step2_pub_spec() == old(self).step2_pub_spec(),
            final(self).step4_pub_spec() == old(self).step4_pub_spec(),
            final(self).real_priv_spec() == old(self).real_priv_spec(),
            final(self).real_pub_spec() == old(self).real_pub_spec(),
    {
        let ghost pre = *self;
        let n = self.potential_partners.len();
        let mut found: usize = n;
        let mut k: usize = 0;
        while k < n
            invariant
                k <= n == self.potential_partners@.len(),
                *self == *old(self),
                found <= n,
                found == n ==> (forall|m: int|
                    0 <= m < k ==> (#[trigger] self.potential_partners@[m]).0@ != did@),
                found < n ==> self.potential_partners@[found as int].0@ == did@,
            decreases n - k,
        {
            if found == n && self.potential_partners[k].0 == did {
                found = k;
            }
            k = k + 1;
        }
        proof {
            if found < n {
                assert forall|m: int|
                    0 <= m < n && m != found implies (
                #[trigger] self.potential_partners@[m]).0@ != did@ by {
                    assert(self.potential_partners@[found as int].0@ == did@);
                }
            }
        }
        if found < n {
            let _ = self.potential_partners.remove(found);
        }
        self.potential_partners.push((did, agent));
        proof {
            let pp = self.potential_partners@;
            let last = pp.len() - 1;
            assert(pp[last].0@ == did@);
            assert(pp[last].1 == agent);
            assert forall|m: int| 0 <= m < last implies (#[trigger] pp[m]).0@ != did@ by {
                if found < n {
                    if m < found {
                        assert(pp[m] == pre.potential_partners@[m]);
                    } else {
                        assert(pp[m] == pre.potential_partners@[m + 1]);
                    }
                } else {
                    assert(pp[m] == pre.potential_partners@[m]);
                }
            }
            assert(self.partner_idx(did@) == last) by {
                let ix = self.partner_idx(did@);
                assert(pp[last].0@ == did@);
                if ix != last {
                    assert(pp[ix].0@ != did@);
                }
            }
        }
    }

    /// Step 3: consume a response, decrypt and judge the enclosed UCAN
    /// through the host's callback, and on acceptance answer with the
    /// signed `awake/msg` envelope carrying the PIN proof.
    #[verifier::rlimit(100)]
    pub fn challenge_response<F: Fn(&str) -> bool>(
        &mut self,
        response_signed: Transitable,
        oob_pin: &str,
        is_ucan_valid: F,
    ) -> (r: Result<Option<Transitable>, AwakeError>)
        requires
            old(self).wf(),
            forall|s: &str| is_ucan_valid.requires((s,)),
        ensures
            final(self).wf(),
            final(self).done_spec() == old(self).done_spec(),
            old(self).done_spec() ==> r == Err::<Option<Transitable>, AwakeError>(
                AwakeError::HandshakeClosed,
            ),
            !old(self).done_spec() && env_field(response_signed@, "iss"@) is None ==> r == Ok::<
                Option<Transitable>,
                AwakeError,
            >(None),
            r is Err ==> final(self).partners_count() == old(self).partners_count(),
            r is Err && !old(self).done_spec() ==> r == Err::<Option<Transitable>, AwakeError>(
                AwakeError::CipherFailure,
            ) && response_opened(
                old(self).step2_priv_spec(),
                old(self).step2_pub_spec(),
                response_signed@,
            ) is None,
            !old(self).done_spec() && env_field(response_signed@, "iss"@) is Some
                && did_to_key_spec(env_field(response_signed@, "iss"@).unwrap()) is Some
                && response_cipher(response_signed@) is Some && response_opened(
                old(self).step2_priv_spec(),
                old(self).step2_pub_spec(),
                response_signed@,
            ) is None ==> r == Err::<Option<Transitable>, AwakeError>(AwakeError::CipherFailure),
            !old(self).done_spec() && env_field(response_signed@, "iss"@) is Some
                && did_to_key_spec(env_field(response_signed@, "iss"@).unwrap()) is Some
                && response_ucan_text(
                old(self).step2_priv_spec(),
                old(self).step2_pub_spec(),
                response_signed@,
            ) is Some && ({
                let ucan = response_ucan_text(
                    old(self).step2_priv_spec(),
                    old(self).step2_pub_spec(),
                    response_signed@,
                ).unwrap();
                &&& json_str_field(ucan, "iss"@) is Some
                &&& did_to_key_spec(json_str_field(ucan, "iss"@).unwrap()) is Some
                &&& challenge_plain(
                    old(self).real_priv_spec(),
                    did_to_key_spec(json_str_field(ucan, "iss"@).unwrap()).unwrap(),
                    oob_pin@,
                ).len() <= MAX_SEAL_LEN
                &&& (forall|s: &str, b: bool|
                    s@ == ucan && is_ucan_valid.ensures((s,), b) ==> b)
            }) ==> r matches Ok(Some(_)),
            r matches Ok(None) ==> final(self).partners_count() == old(self).partners_count(),
            r matches Ok(None) ==> (env_field(response_signed@, "iss"@) is None || did_to_key_spec(
                env_field(response_signed@, "iss"@).unwrap(),
            ) is None || response_cipher(response_signed@) is None || response_ucan_text(
                old(self).step2_priv_spec(),
                old(self).step2_pub_spec(),
                response_signed@,
            ) is None || ({
                let ucan = response_ucan_text(
                    old(self).step2_priv_spec(),
                    old(self).step2_pub_spec(),
                    response_signed@,
                ).unwrap();
                ||| (exists|s: &str| s@ == ucan && is_ucan_valid.ensures((s,), false))
                ||| json_str_field(ucan, "iss"@) is None
                ||| did_to_key_spec(json_str_field(ucan, "iss"@).unwrap()) is None
                ||| (json_str_field(ucan, "iss"@) is Some && did_to_key_spec(
                    json_str_field(ucan, "iss"@).unwrap(),
                ) is Some && challenge_plain(
                    old(self).real_priv_spec(),
                    did_to_key_spec(json_str_field(ucan, "iss"@).unwrap()).unwrap(),
                    oob_pin@,
                ).len() > MAX_SEAL_LEN)
            })),
            r matches Ok(Some(t)) ==> {
                &&& env_field(response_signed@, "iss"@) is Some
                &&& did_to_key_spec(env_field(response_signed@, "iss"@).unwrap()) is Some
                &&& response_ucan_text(
                    old(self).step2_priv_spec(),
                    old(self).step2_pub_spec(),
                    response_signed@,
                ) is Some
                &&& (exists|s: &str|
                    s@ == response_ucan_text(
                        old(self).step2_priv_spec(),
                        old(self).step2_pub_spec(),
                        response_signed@,
                    ).unwrap() && is_ucan_valid.ensures((s,), true))
                &&& ({
                    let ucan = response_ucan_text(
                        old(self).step2_priv_spec(),
                        old(self).step2_pub_spec(),
                        response_signed@,
                    ).unwrap();
                    &&& json_str_field(ucan, "iss"@) is Some
                    &&& did_to_key_spec(json_str_field(ucan, "iss"@).unwrap()) is Some
                    &&& t@ == challenge_output(
                        old(self).step2_priv_spec(),
                        old(self).real_priv_spec(),
                        env_field(response_signed@, "iss"@).unwrap(),
                        json_str_field(ucan, "iss"@).unwrap(),
                        oob_pin@,
                    )
                })
                &&& final(self).has_partner(env_field(response_signed@, "iss"@).unwrap())
                &&& ({
                    let did = env_field(response_signed@, "iss"@).unwrap();
                    let shared = dh_bits(
                        pub_key_of(old(self).step2_priv_spec()),
                        did_to_key_spec(did).unwrap(),
                    );
                    let salt = encode_utf8(key_to_did_spec(old(self).step2_pub_spec()));
                    let a = final(self).partner(did);
                    &&& a.did_spec() == did
                    &&& a.prefix() is None
                    &&& a.send_count() == 1
                    &&& a.send_chain().uniform(shared, salt)
                    &&& a.recv_chain().uniform(shared, salt)
                    &&& a.send_chain().size() == 1
                    &&& a.recv_chain().size() == 1
                    &&& a.send_chain().used(0)
                    &&& a.recv_chain().used(0)
                })
            },
    {
        if self.is_done() {
            return Err(AwakeError::HandshakeClosed);
        }
        let response = match response_signed.unsign() {
            Ok(t) => t,
            Err(_) => {
                self.warnings.push("handshake response is not a well-formed jwt".to_owned());
                return Ok(None);
            },
        };
        let response_str = match response.as_readable() {
            Some(s) => s,
            None => {
                self.warnings.push("handshake response payload is not readable text".to_owned());
                return Ok(None);
            },
        };
        let forien_step_2_did = match json_get_str(response_str.as_str(), "iss") {
            Some(d) => d,
            None => {
                self.warnings.push("handshake response holds no iss field".to_owned());
                return Ok(None);
            },
        };

        // open the tentative session, salted with our own step-2 DID
        let mut agent = match ForienAgent::new(
            self.step_2_private.as_slice(),
            forien_step_2_did.as_str(),
            Some(&self.step_2_public),
        ) {
            Ok(a) => a,
            Err(_) => {
                self.warnings.push("handshake response iss did is malformed".to_owned());
                return Ok(None);
            },
        };

        // the message id both sides derive for this exchange
        let forien_step_2_key = match did_key_to_crypto_key(forien_step_2_did.as_str()) {
            Ok(k) => k,
            Err(_) => unreached(),
        };
        let mid_digest = get_message_id(
            self.step_2_public.as_slice(),
            forien_step_2_key.as_slice(),
            None,
        );
        let mid = base64_encode(mid_digest.as_slice());

        // decrypt the enclosed ucan
        let ucan_encrypted_str = match json_get_str(response_str.as_str(), "msg") {
            Some(m) => m,
            None => {
                self.warnings.push("handshake response holds no msg field".to_owned());
                return Ok(None);
            },
        };
        let ucan_encrypted = match Transitable::from_base64(ucan_encrypted_str.as_str()) {
            Ok(t) => t,
            Err(_) => {
                proof {
                    assert(response_cipher(response_signed@) is None);
                }
                self.warnings.push("handshake response msg is not base64".to_owned());
                return Ok(None);
            },
        };
        proof {
            assert(response_cipher(response_signed@) == Some(ucan_encrypted@));
        }
        let decrypted = agent.decrypt_for(0, ucan_encrypted);
        proof {
            let shared = dh_bits(
                pub_key_of(old(self).step2_priv_spec()),
                did_to_key_spec(forien_step_2_did@).unwrap(),
            );
            let salt = encode_utf8(key_to_did_spec(old(self).step2_pub_spec()));
            assert(agent.recv_chain().uniform(shared, salt));
            agent.lemma_wf_parts();
            lemma_uniform_blocks(&agent.recv_chain(), shared, salt, 0);
            assert(agent.recv_chain().key_at(0) == block_key(agent_block0(
                old(self).step2_priv_spec(),
                forien_step_2_did@,
                salt,
            )));
        }
        let ucan_signed = match decrypted {
            Ok(t) => t,
            Err(AwakeError::CipherFailure) => {
                proof {
                    assert(response_opened(
                        old(self).step2_priv_spec(),
                        old(self).step2_pub_spec(),
                        response_signed@,
                    ) is None);
                }
                return Err(AwakeError::CipherFailure);
            },
            Err(_) => unreached(),
        };
        proof {
            assert(response_opened(
                old(self).step2_priv_spec(),
                old(self).step2_pub_spec(),
                response_signed@,
            ) == Some(ucan_signed@));
        }
        let ucan_payload_str = match ucan_signed.unsign() {
            Ok(p) => match p.as_readable() {
                Some(s) => s,
                None => {
                    self.warnings.push("enclosed ucan payload is not readable text".to_owned());
                    return Ok(None);
                },
            },
            Err(_) => {
                self.warnings.push("enclosed ucan is not a well-formed jwt".to_owned());
                return Ok(None);
            },
        };
        proof {
            assert(response_ucan_text(
                old(self).step2_priv_spec(),
                old(self).step2_pub_spec(),
                response_signed@,
            ) == Some(ucan_payload_str@));
        }
        let ucan_ok = is_ucan_valid(ucan_payload_str.as_str());
        if !ucan_ok {
            self.warnings.push("failed to verify sender's ucan".to_owned());
            return Ok(None);
        }

        // prove possession of the pin toward the peer's real identity
        let forein_real_did = match json_get_str(ucan_payload_str.as_str(), "iss") {
            Some(d) => d,
            None => {
                self.warnings.push("enclosed ucan holds no iss field".to_owned());
                return Ok(None);
            },
        };
        let forein_real_key = match did_key_to_crypto_key(forein_real_did.as_str()) {
            Ok(k) => k,
            Err(_) => {
                proof {
                    assert(did_to_key_spec(forein_real_did@) is None);
                }
                self.warnings.push("enclosed ucan iss did is malformed".to_owned());
                return Ok(None);
            },
        };
        proof {
            assert(json_str_field(ucan_payload_str@, "iss"@) == Some(forein_real_did@));
        }
        let mut hash_data: Vec<u8> = Vec::new();
        hash_data.extend_from_slice(forein_real_key.as_slice());
        hash_data.extend_from_slice(oob_pin.as_bytes());
        proof {
            assert(hash_data@ =~= did_to_key_spec(forein_real_did@).unwrap() + encode_utf8(
                oob_pin@,
            ));
        }
        let hash = sha256_digest(hash_data.as_slice());
        let digest = sha512_digest(hash.as_slice());
        let signature = match ecdsa_sign_digest(self.real_private.as_slice(), digest.as_slice()) {
            Some(s) => s,
            None => unreached(),
        };
        let sig_b64 = base64_encode(signature.as_slice());
        let self_real_did = crypto_key_to_did_key(self.real_public.as_slice());
        let msg_plain = build_challenge_body(oob_pin, self_real_did.as_str(), sig_b64.as_str());
        proof {
            assert(msg_plain@ == challenge_plain(
                old(self).real_priv_spec(),
                did_to_key_spec(forein_real_did@).unwrap(),
                oob_pin@,
            )) by {
                assert(sig_b64@ == b64_chars(ecdsa_sig(
                    old(self).real_priv_spec(),
                    sha512_of(sha256_of(did_to_key_spec(forein_real_did@).unwrap() + encode_utf8(
                        oob_pin@,
                    ))),
                )));
                assert(self_real_did@ == key_to_did_spec(pub_key_of(old(self).real_priv_spec())));
            }
        }

        // hold the proof to the cipher's cap, then seal it into the session
        if msg_plain.len() as u64 > MAX_SEAL_LEN {
            self.warnings.push("challenge proof exceeds the cipher's plaintext cap".to_owned());
            return Ok(None);
        }
        let msg_encrypted = match agent.encrypt_for(Transitable::from_bytes(msg_plain.as_slice())) {
            Ok((_, ct)) => ct,
            Err(_) => unreached(),
        };
        proof {
            let shared = dh_bits(
                pub_key_of(old(self).step2_priv_spec()),
                did_to_key_spec(forien_step_2_did@).unwrap(),
            );
            let salt = encode_utf8(key_to_did_spec(old(self).step2_pub_spec()));
            assert(agent.send_chain().uniform(shared, salt));
            agent.lemma_wf_parts();
            lemma_uniform_blocks(&agent.send_chain(), shared, salt, 0);
            reveal(seal0);
            assert(msg_plain@ == challenge_body(oob_pin@, self_real_did@, sig_b64@));
            assert(sig_b64@ == b64_chars(ecdsa_sig(
                old(self).real_priv_spec(),
                sha512_of(sha256_of(did_to_key_spec(forein_real_did@).unwrap() + encode_utf8(
                    oob_pin@,
                ))),
            )));
            assert(msg_encrypted@ == seal0(
                old(self).step2_priv_spec(),
                forien_step_2_did@,
                salt,
                msg_plain@,
            ));
        }
        let msg_b64 = msg_encrypted.as_base64();
        proof {
            let shared = dh_bits(
                pub_key_of(old(self).step2_priv_spec()),
                did_to_key_spec(forien_step_2_did@).unwrap(),
            );
            let salt = encode_utf8(key_to_did_spec(old(self).step2_pub_spec()));
            assert(agent.recv_chain().uniform(shared, salt));
            assert(agent.send_chain().used(0));
            assert(agent.recv_chain().used(0));
            assert(agent.send_chain().size() == 1);
            assert(agent.recv_chain().size() == 1);
            assert(agent.send_count() == 1);
            assert(agent.prefix() is None);
            assert(agent.did_spec() == forien_step_2_did@);
        }
        let ghost stored = agent;
        self.insert_partner(forien_step_2_did.clone(), agent);
        proof {
            assert(final(self).partner(forien_step_2_did@) == stored) by {
                assert(self.partner(forien_step_2_did@) == stored);
            }
        }

        // answer
        let body = build_env_msg(mid.as_str(), msg_b64.as_str());
        let challenge = match Transitable::from_bytes(body.as_slice()).sign(
            self.real_private.as_slice(),
        ) {
            Ok(t) => t,
            Err(_) => unreached(),
        };
        proof {
            reveal(seal0);
            reveal(challenge_output);
            assert(env_field(response_signed@, "iss"@) == Some(forien_step_2_did@));
            assert(mid@ == b64_chars(message_id_spec(
                pub_key_of(old(self).step2_priv_spec()),
                did_to_key_spec(forien_step_2_did@).unwrap(),
                None,
            )));
            assert(body@ == env_msg(mid@, msg_b64@));
            assert(challenge@ == jwt_bytes(body@, old(self).real_priv_spec()));
            assert(challenge@ == challenge_output(
                old(self).step2_priv_spec(),
                old(self).real_priv_spec(),
                env_field(response_signed@, "iss"@).unwrap(),
                forein_real_did@,
                oob_pin@,
            ));
        }
        Ok(Some(challenge))
    }

    /// Step 4: consume a challenge, find the tentative peer whose
    /// message id matches, check the PIN proof's signature, judge the
    /// PIN through the host's callback, and on acceptance bind the
    /// session and answer with a signed `awake/ack` envelope. A
    /// challenge whose message id matches no remembered peer is set
    /// aside with a warning, not answered.
    ///
    /// The rekey runs from our step-4 private key toward the peer's
    /// step-2 DID: the challenge carries no other DID for the peer, so
    /// that is the only public point this side can pair its step-4 key
    /// with.
    #[verifier::rlimit(100)]
    pub fn acknowledge_challenge<F: Fn(&str) -> bool>(
        &mut self,
        challenge_signed: Transitable,
        is_pin_valid: F,
    ) -> (r: Result<Option<Transitable>, AwakeError>)
        requires
            old(self).wf(),
            forall|s: &str| is_pin_valid.requires((s,)),
        ensures
            final(self).wf(),
            old(self).done_spec() ==> r == Err::<Option<Transitable>, AwakeError>(
                AwakeError::HandshakeClosed,
            ) && final(self).done_spec(),
            r matches Ok(Some(t)) ==> final(self).done_spec() && final(self).partners_count()
                == 0 && t@ == jwt_bytes(
                env_ack(key_to_did_spec(old(self).real_pub_spec())),
                old(self).real_priv_spec(),
            ),
            r matches Ok(None) ==> final(self).done_spec() == old(self).done_spec(),
            r matches Ok(None) ==> final(self).partners_count() == old(self).partners_count(),
            r is Err ==> final(self).done_spec() == old(self).done_spec(),
            r is Err ==> final(self).partners_count() == old(self).partners_count(),
            !old(self).done_spec() && !old(self).ack_has_match(challenge_signed@) ==> r == Ok::<
                Option<Transitable>,
                AwakeError,
            >(None),
            !old(self).done_spec() && old(self).ack_has_match(challenge_signed@) && old(
                self,
            ).ack_partner_fresh(challenge_signed@) && old(self).ack_msg_text(challenge_signed@)
                is Some && ack_msg_sig_ok(
                old(self).real_pub_spec(),
                old(self).ack_msg_text(challenge_signed@).unwrap(),
            ) ==> !(r is Err),
            !old(self).done_spec() && old(self).ack_has_match(challenge_signed@) && old(
                self,
            ).ack_partner_fresh(challenge_signed@) && old(self).ack_msg_text(challenge_signed@)
                is Some && ({
                let msg = old(self).ack_msg_text(challenge_signed@).unwrap();
                &&& ack_msg_sig_ok(old(self).real_pub_spec(), msg)
                &&& (forall|s: &str, b: bool|
                    s@ == json_str_field(msg, "pin"@).unwrap() && is_pin_valid.ensures(
                        (s,),
                        b,
                    ) ==> b)
            }) ==> r matches Ok(Some(_)),
            r matches Ok(None) ==> (!old(self).ack_has_match(challenge_signed@) || old(
                self,
            ).ack_msg_text(challenge_signed@) is None || !ack_msg_sig_ok(
                old(self).real_pub_spec(),
                old(self).ack_msg_text(challenge_signed@).unwrap(),
            ) || (exists|s: &str|
                s@ == json_str_field(
                    old(self).ack_msg_text(challenge_signed@).unwrap(),
                    "pin"@,
                ).unwrap() && is_pin_valid.ensures((s,), false))),
            r matches Ok(Some(t)) ==> {
                &&& old(self).ack_has_match(challenge_signed@)
                &&& old(self).ack_msg_text(challenge_signed@) is Some
                &&& ack_msg_sig_ok(
                    old(self).real_pub_spec(),
                    old(self).ack_msg_text(challenge_signed@).unwrap(),
                )
                &&& (exists|s: &str|
                    s@ == json_str_field(
                        old(self).ack_msg_text(challenge_signed@).unwrap(),
                        "pin"@,
                    ).unwrap() && is_pin_valid.ensures((s,), true))
            },
    {
        if self.is_done() {
            return Err(AwakeError::HandshakeClosed);
        }
        let challenge = match challenge_signed.unsign() {
            Ok(t) => t,
            Err(_) => {
                self.warnings.push("challenge is not a well-formed jwt".to_owned());
                return Ok(None);
            },
        };
        let challenge_str = match challenge.as_readable() {
            Some(s) => s,
            None => {
                self.warnings.push("challenge payload is not readable text".to_owned());
                return Ok(None);
            },
        };
        let challenge_mid = match json_get_str(challenge_str.as_str(), "mid") {
            Some(m) => m,
            None => {
                self.warnings.push("challenge holds no mid field".to_owned());
                return Ok(None);
            },
        };
        proof {
            assert(env_field(challenge_signed@, "mid"@) == Some(challenge_mid@));
        }
        let agent_index = match self.find_agent(challenge_mid.as_str()) {
            Some(i) => i,
            None => {
                proof {
                    assert(!old(self).ack_has_match(challenge_signed@));
                }
                self.warnings.push("no tentative peer matches the challenge mid".to_owned());
                return Ok(None);
            },
        };

        // decrypt the pin proof
        let challenge_msg_b64 = match json_get_str(challenge_str.as_str(), "msg") {
            Some(m) => m,
            None => {
                proof {
                    assert(old(self).ack_msg_text(challenge_signed@) is None);
                }
                self.warnings.push("challenge holds no msg field".to_owned());
                return Ok(None);
            },
        };
        let challenge_msg_encrypted = match Transitable::from_base64(challenge_msg_b64.as_str()) {
            Ok(t) => t,
            Err(_) => {
                proof {
                    assert(old(self).ack_msg_text(challenge_signed@) is None);
                }
                self.warnings.push("challenge msg is not base64".to_owned());
                return Ok(None);
            },
        };
        let ghost pre_partners = self.potential_partners@;
        let decrypted = self.potential_partners[agent_index].1.decrypt_for(
            0,
            challenge_msg_encrypted,
        );
        proof {
            let pp = self.potential_partners@;
            let ai = agent_index as int;
            assert(pp.len() == pre_partners.len());
            assert forall|i: int| 0 <= i < pp.len() && i != ai implies pp[i] == pre_partners[i] by {}
            assert(pp[ai].0 == pre_partners[ai].0);
            assert(self.wf()) by {
                assert(pp[ai].1.wf());
                assert(pp[ai].1.did_spec() == pre_partners[ai].1.did_spec());
                assert(pp[ai].1.send_chain() == pre_partners[ai].1.send_chain());
                assert(pp[ai].1.recv_chain().size() <= 1);
            }
            assert(pp[ai].1.recv_chain().key_at(0) == pre_partners[ai].1.recv_chain().key_at(0)
                && pp[ai].1.recv_chain().iv_at(0) == pre_partners[ai].1.recv_chain().iv_at(
                0,
            )) by {
                pre_partners[ai].1.lemma_wf_parts();
                pre_partners[ai].1.recv_chain().lemma_wf_size();
                pp[ai].1.lemma_wf_parts();
                pp[ai].1.recv_chain().lemma_wf_size();
                assert(pp[ai].1.recv_chain().size() >= pre_partners[ai].1.recv_chain().size());
                assert(pp[ai].1.recv_chain().blocks().subrange(
                    0,
                    pre_partners[ai].1.recv_chain().size(),
                ) == pre_partners[ai].1.recv_chain().blocks());
                assert(pp[ai].1.recv_chain().blocks()[0] == pp[ai].1.recv_chain().blocks().subrange(
                    0,
                    pre_partners[ai].1.recv_chain().size(),
                )[0]);
            }
        }
        let challenge_msg = match decrypted {
            Ok(t) => t,
            Err(AwakeError::CipherFailure) => {
                proof {
                    assert(old(self).ack_opened(challenge_signed@) is None);
                }
                return Err(AwakeError::CipherFailure);
            },
            Err(e) => {
                proof {
                    assert(!old(self).ack_partner_fresh(challenge_signed@));
                }
                return Err(e);
            },
        };
        proof {
            assert(old(self).ack_opened(challenge_signed@) == Some(challenge_msg@));
        }
        let challenge_msg_str = match challenge_msg.as_readable() {
            Some(s) => s,
            None => {
                proof {
                    assert(old(self).ack_msg_text(challenge_signed@) is None);
                }
                self.warnings.push("challenge msg is not readable text".to_owned());
                return Ok(None);
            },
        };
        proof {
            assert(old(self).ack_msg_text(challenge_signed@) == Some(challenge_msg_str@));
        }

        // check the pin proof's signature against the claimed identity
        let pin = match json_get_str(challenge_msg_str.as_str(), "pin") {
            Some(p) => p,
            None => {
                proof {
                    assert(!ack_msg_sig_ok(old(self).real_pub_spec(), challenge_msg_str@));
                }
                self.warnings.push("challenge msg holds no pin field".to_owned());
                return Ok(None);
            },
        };
        let real_forien_did = match json_get_str(challenge_msg_str.as_str(), "did") {
            Some(d) => d,
            None => {
                proof {
                    assert(!ack_msg_sig_ok(old(self).real_pub_spec(), challenge_msg_str@));
                }
                self.warnings.push("challenge msg holds no did field".to_owned());
                return Ok(None);
            },
        };
        let sig_b64 = match json_get_str(challenge_msg_str.as_str(), "sig") {
            Some(x) => x,
            None => {
                proof {
                    assert(!ack_msg_sig_ok(old(self).real_pub_spec(), challenge_msg_str@));
                }
                self.warnings.push("challenge msg holds no sig field".to_owned());
                return Ok(None);
            },
        };
        let sig = match Transitable::from_base64(sig_b64.as_str()) {
            Ok(t) => t,
            Err(_) => {
                proof {
                    assert(!ack_msg_sig_ok(old(self).real_pub_spec(), challenge_msg_str@));
                }
                self.warnings.push("challenge msg sig is not base64".to_owned());
                return Ok(None);
            },
        };
        let real_forien_key = match did_key_to_crypto_key(real_forien_did.as_str()) {
            Ok(k) => k,
            Err(_) => {
                proof {
                    assert(!ack_msg_sig_ok(old(self).real_pub_spec(), challenge_msg_str@));
                }
                self.warnings.push("challenge msg did is malformed".to_owned());
                return Ok(None);
            },
        };
        // the proof was laid over our own real identity (the ucan issuer)
        // and the shared pin, and signed with the peer's real key
        let mut hash_data: Vec<u8> = Vec::new();
        hash_data.extend_from_slice(self.real_public.as_slice());
        hash_data.extend_from_slice(pin.as_str().as_bytes());
        proof {
            assert(hash_data@ =~= old(self).real_pub_spec() + encode_utf8(pin@));
        }
        let hash = sha256_digest(hash_data.as_slice());
        let digest = sha512_digest(hash.as_slice());
        let sig_bytes = sig.as_bytes();
        if !ecdsa_verify_digest(real_forien_key.as_slice(), digest.as_slice(), sig_bytes.as_slice())
        {
            proof {
                assert(!ack_msg_sig_ok(old(self).real_pub_spec(), challenge_msg_str@));
            }
            return Err(AwakeError::CipherFailure);
        }
        proof {
            assert(ack_msg_sig_ok(old(self).real_pub_spec(), challenge_msg_str@));
        }

        // the host judges the pin
        let pin_ok = is_pin_valid(pin.as_str());
        if !pin_ok {
            self.warnings.push("failed to verify sender's pin".to_owned());
            return Ok(None);
        }

        // bind the session: rekey with the step-4 key toward the peer
        let removed = self.potential_partners.remove(agent_index);
        let ghost removed_partners = self.potential_partners@;
        let mut agent = removed.1;
        let peer_did = agent.did_string();
        let mid_prefix = real_forien_did.as_str().as_bytes_vec();
        let finalized = agent.finalize(self.step_4_private.as_slice(), peer_did.as_str(), mid_prefix);
        match finalized {
            Ok(()) => {},
            Err(_) => {
                self.potential_partners.push((peer_did, agent));
                proof {
                    let pp = self.potential_partners@;
                    assert(pp[pp.len() - 1].1 == agent);
                    assert(self.wf()) by {
                        assert(forall|i: int|
                            0 <= i < pp.len() - 1 ==> pp[i] == removed_partners[i]);
                    }
                }
                self.warnings.push("could not finalize the session".to_owned());
                return Ok(None);
            },
        }
        let ack_body = build_env_ack(crypto_key_to_did_key(self.real_public.as_slice()).as_str());
        let ack = match Transitable::from_bytes(ack_body.as_slice()).sign(
            self.real_private.as_slice(),
        ) {
            Ok(t) => t,
            Err(_) => unreached(),
        };
        self.final_agent = Some(agent);
        self.potential_partners = Vec::new();
        self.step_2_private = Vec::new();
        self.step_2_public = Vec::new();
        self.step_4_private = Vec::new();
        self.step_4_public = Vec::new();
        Ok(Some(ack))
    }

    /// Find the remembered peer whose message id against our step-2 key
    /// matches.
    fn find_agent(&self, mid: &str) -> (r: Option<usize>)
        requires
            self.wf(),
            !self.done_spec(),
        ensures
            r is Some <==> self.first_mid_match(mid@, 0) < self.partners_count(),
            r matches Some(i) ==> i == self.first_mid_match(mid@, 0) && 0 <= i
                < self.partners_count(),
    {
        let wanted = mid.to_owned();
        let n = self.potential_partners.len();
        let mut k: usize = 0;
        while k < n
            invariant
                k <= n == self.potential_partners@.len(),
                self.wf(),
                wanted@ == mid@,
                forall|m: int| 0 <= m < k ==> #[trigger] self.partner_mid(m) != mid@,
            decreases n - k,
        {
            proof {
                assert(did_to_key_spec(self.potential_partners@[k as int].0@) is Some);
            }
            let agent_key = match did_key_to_crypto_key(self.potential_partners[k].0.as_str()) {
                Ok(key) => key,
                Err(_) => unreached(),
            };
            let digest = get_message_id(
                agent_key.as_slice(),
                self.step_2_public.as_slice(),
                None,
            );
            let comp_mid = base64_encode(digest.as_slice());
            if comp_mid == wanted {
                proof {
                    assert(self.partner_mid(k as int) == mid@);
                    self.lemma_first_mid_match_is(mid@, k as int);
                }
                return Some(k);
            }
            k = k + 1;
        }
        proof {
            self.lemma_first_mid_match_is(mid@, n as int);
        }
        None
    }

    /// The first-match search lands exactly where no earlier peer
    /// matches and this one does (or past the end, when none does).
    proof fn lemma_first_mid_match_is(&self, mid: Seq<char>, k: int)
        requires
            0 <= k <= self.partners_count(),
            k < self.partners_count() ==> self.partner_mid(k) == mid,
            forall|m: int| 0 <= m < k ==> #[trigger] self.partner_mid(m) != mid,
        ensures
            self.first_mid_match(mid, 0) == k,
    {
        self.lemma_first_mid_match_from(mid, 0, k);
    }

    proof fn lemma_first_mid_match_from(&self, mid: Seq<char>, from: int, k: int)
        requires
            0 <= from <= k <= self.partners_count(),
            k < self.partners_count() ==> self.partner_mid(k) == mid,
            forall|m: int| from <= m < k ==> #[trigger] self.partner_mid(m) != mid,
        ensures
            self.first_mid_match(mid, from) == k,
        decreases k - from,
    {
        if from < k {
            self.lemma_first_mid_match_from(mid, from + 1, k);
        }
    }
}

} // verus!
