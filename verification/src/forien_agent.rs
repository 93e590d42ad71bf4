//! A peer session: the peer's DID bound to a pair of ratchets (one per
//! direction), a monotonic send counter, and an optional message-id
//! prefix that is set when the handshake finalizes the session.

use vstd::prelude::*;

verus! {

use vstd::string::StrSliceExecFns;
use vstd::utf8::encode_utf8;
use crate::codec::{b64_chars, base64_encode};
use crate::errors::AwakeError;
use crate::ratchet::Ratchet;
use crate::transitable::{verify_spec, Transitable};
use crate::utils::{
    aead_dec,
    aead_enc,
    did_key_to_crypto_key,
    did_to_key_spec,
    diffie_helman,
    key_to_did_spec,
    crypto_key_to_did_key,
    parses_priv,
    pub_key_of,
    dh_bits,
    sha256_of,
    sha256_digest,
    u64_be,
    u64_be_bytes,
    u64_dec,
    u64_to_decimal,
    MAX_SEAL_LEN,
};

/// The widest message index that a mid search will look at.
pub const MAX_MSGS: usize = 1000000;

/// The message id derived for index `id` under a prefix: base64 of
/// SHA-256 over the prefix and the big-endian index.
pub open spec fn mid_spec(prefix: Seq<u8>, id: u64) -> Seq<char> {
    b64_chars(sha256_of(prefix + u64_be(id)))
}

/// The salt a new agent seeds its ratchets with: the requestor's DID
/// when a requestor public key is supplied, the peer's DID otherwise.
pub open spec fn agent_salt_spec(forien_did: Seq<char>, requestor_key: Option<Seq<u8>>) -> Seq<
    u8,
> {
    match requestor_key {
        Some(k) => encode_utf8(key_to_did_spec(k)),
        None => encode_utf8(forien_did),
    }
}

/// Whether the outward walk from `start` still has an index to probe at
/// step `i`: one above the cap-bounded upper arm, or one at or below
/// `start`.
pub open spec fn walk_live(start: int, i: int) -> bool {
    (start < MAX_MSGS && i < MAX_MSGS - start) || i <= start
}

/// The index whose derived message id matches at step `i` of the walk,
/// probing `start + i` first and `start - i` second, as the search does.
pub open spec fn walk_hit(prefix: Seq<u8>, mid: Seq<char>, start: int, i: int) -> Option<int> {
    if start + i < MAX_MSGS && mid_spec(prefix, (start + i) as u64) == mid {
        Some(start + i)
    } else if i <= start && start - i < MAX_MSGS && mid_spec(prefix, (start - i) as u64) == mid {
        Some(start - i)
    } else {
        None
    }
}

/// The first index the outward walk matches, from step `i` on: the index
/// the mid search decrypts at.
pub open spec fn walk_match(prefix: Seq<u8>, mid: Seq<char>, start: int, i: int) -> Option<int>
    decreases (if start < MAX_MSGS && i < MAX_MSGS - start {
        MAX_MSGS - start - i
    } else {
        0
    }) + (if i <= start {
        start - i + 1
    } else {
        0
    }),
{
    if !walk_live(start, i) {
        None
    } else {
        match walk_hit(prefix, mid, start, i) {
            Some(id) => Some(id),
            None => walk_match(prefix, mid, start, i + 1),
        }
    }
}

/// Steps the walk has already passed without a hit do not change where
/// it first matches.
proof fn lemma_walk_advance(p: Seq<u8>, mid: Seq<char>, start: int, k: int, i: int)
    requires
        0 <= start,
        0 <= k <= i,
        forall|j: int|
            0 <= j < i && start + j < MAX_MSGS ==> #[trigger] mid_spec(
                p,
                (start + j) as u64,
            ) != mid,
        forall|j: int|
            0 < j < i && j <= start && start - j < MAX_MSGS ==> #[trigger] mid_spec(
                p,
                (start - j) as u64,
            ) != mid,
    ensures
        walk_match(p, mid, start, k) == walk_match(p, mid, start, i),
    decreases i - k,
{
    if k < i {
        if !walk_live(start, k) {
            assert(!walk_live(start, i));
        } else {
            assert(walk_hit(p, mid, start, k) is None) by {
                if start + k < MAX_MSGS {
                    assert(mid_spec(p, (start + k) as u64) != mid);
                }
                if k <= start && start - k < MAX_MSGS {
                    if k == 0 {
                        assert(mid_spec(p, (start + 0) as u64) != mid);
                    } else {
                        assert(mid_spec(p, (start - k) as u64) != mid);
                    }
                }
            }
            lemma_walk_advance(p, mid, start, k + 1, i);
        }
    }
}

/// When no index under the cap derives the wanted id, the walk matches
/// nowhere.
proof fn lemma_walk_none(p: Seq<u8>, mid: Seq<char>, start: int, i: int)
    requires
        0 <= start,
        0 <= i,
        forall|id: u64| id < MAX_MSGS ==> #[trigger] mid_spec(p, id) != mid,
    ensures
        walk_match(p, mid, start, i) is None,
    decreases (if start < MAX_MSGS && i < MAX_MSGS - start {
        MAX_MSGS - start - i
    } else {
        0
    }) + (if i <= start {
        start - i + 1
    } else {
        0
    }),
{
    if walk_live(start, i) {
        assert(walk_hit(p, mid, start, i) is None) by {
            if start + i < MAX_MSGS {
                assert(mid_spec(p, (start + i) as u64) != mid);
            }
            if i <= start && start - i < MAX_MSGS {
                assert(mid_spec(p, (start - i) as u64) != mid);
            }
        }
        lemma_walk_none(p, mid, start, i + 1);
    }
}

/// What one decryption at receive index `id` does to an agent: the full
/// relation `decrypt_for` establishes between the agent before and
/// after the call, the handed ciphertext, and the result.
pub open spec fn decrypt_for_post(
    pre: ForienAgent,
    post: ForienAgent,
    id: usize,
    payload: Seq<u8>,
    r: Result<Transitable, AwakeError>,
) -> bool {
    &&& post.wf()
    &&& post.did_spec() == pre.did_spec()
    &&& post.prefix() == pre.prefix()
    &&& post.send_chain() == pre.send_chain()
    &&& post.send_count() == pre.send_count()
    &&& post.recv_chain().salt_seq() == pre.recv_chain().salt_seq()
    &&& post.recv_chain().blocks().subrange(0, pre.recv_chain().size())
        == pre.recv_chain().blocks()
    &&& post.recv_chain().size() == (if pre.recv_chain().size() > id as int + 1 {
        pre.recv_chain().size()
    } else {
        id as int + 1
    })
    &&& (forall|i: int|
        0 <= i < pre.recv_chain().size() ==> post.recv_chain().ikm_at(i)
            == pre.recv_chain().ikm_at(i))
    &&& (forall|i: int|
        pre.recv_chain().size() <= i < post.recv_chain().size() ==> post.recv_chain().ikm_at(i)
            == pre.recv_chain().ikm_at(pre.recv_chain().size() - 1))
    &&& ((id < pre.recv_chain().size() && pre.recv_chain().used(id as int)) ==> r == Err::<
        Transitable,
        AwakeError,
    >(AwakeError::AlreadyProcessed(id)))
    &&& (!(id < pre.recv_chain().size() && pre.recv_chain().used(id as int)) ==> (match aead_dec(
        post.recv_chain().key_at(id as int),
        post.recv_chain().iv_at(id as int),
        payload,
    ) {
        Some(pt) => r is Ok && r.unwrap()@ == pt && post.recv_chain().used(id as int),
        None => r == Err::<Transitable, AwakeError>(AwakeError::CipherFailure),
    }))
    &&& (forall|i: int|
        0 <= i < post.recv_chain().size() && i != id ==> post.recv_chain().used(i) == (if i
            < pre.recv_chain().size() {
            pre.recv_chain().used(i)
        } else {
            false
        }))
}

/// Probing outward from `start` for `steps` steps covers every index
/// under the cap, once the walk has passed both ends.
proof fn lemma_cap_covered(p: Seq<u8>, mid: Seq<char>, start: int, steps: int)
    requires
        0 <= start,
        steps > start,
        steps >= MAX_MSGS - start || start >= MAX_MSGS,
        forall|j: int|
            0 <= j < steps && start + j < MAX_MSGS ==> #[trigger] mid_spec(
                p,
                (start + j) as u64,
            ) != mid,
        forall|j: int|
            0 < j < steps && j <= start && start - j < MAX_MSGS ==> #[trigger] mid_spec(
                p,
                (start - j) as u64,
            ) != mid,
    ensures
        forall|id: u64| id < MAX_MSGS ==> #[trigger] mid_spec(p, id) != mid,
{
    assert forall|id: u64| id < MAX_MSGS implies #[trigger] mid_spec(p, id) != mid by {
        if id >= start {
            let j = id - start;
            assert(mid_spec(p, (start + j) as u64) != mid);
        } else {
            let j = start - id;
            assert(mid_spec(p, (start - j) as u64) != mid);
        }
    }
}

/// A peer endpoint: its DID and the two ratchet chains.
pub struct ForienAgent {
    /// The peer's DID.
    pub did: String,
    mid_prefix: Option<Vec<u8>>,
    next_send_id: usize,
    send_ratchet: Ratchet,
    recieve_ratchet: Ratchet,
}

impl ForienAgent {
    /// Both ratchets are well formed and point in opposite directions.
    pub closed spec fn wf(&self) -> bool {
        &&& self.send_ratchet.wf()
        &&& self.recieve_ratchet.wf()
        &&& self.send_ratchet.enc()
        &&& !self.recieve_ratchet.enc()
    }

    /// The peer's DID, as text.
    pub closed spec fn did_spec(&self) -> Seq<char> {
        self.did@
    }

    /// The message-id prefix, once finalized.
    pub closed spec fn prefix(&self) -> Option<Seq<u8>> {
        match self.mid_prefix {
            Some(ref p) => Some(p@),
            None => None,
        }
    }

    /// The next unused send index.
    pub closed spec fn send_count(&self) -> int {
        self.next_send_id as int
    }

    /// The sending ratchet chain.
    pub closed spec fn send_chain(&self) -> Ratchet {
        self.send_ratchet
    }

    /// The receiving ratchet chain.
    pub closed spec fn recv_chain(&self) -> Ratchet {
        self.recieve_ratchet
    }

    /// What well-formedness of an agent gives of its two chains.
    pub proof fn lemma_wf_parts(&self)
        requires
            self.wf(),
        ensures
            self.send_chain().wf(),
            self.recv_chain().wf(),
            self.send_chain().enc(),
            !self.recv_chain().enc(),
    {
    }

    /// The peer's DID, as an owned string.
    pub fn did_string(&self) -> (r: String)
        ensures
            r@ == self.did_spec(),
    {
        self.did.clone()
    }

    /// Open a session toward a peer DID: agree raw ECDH bits between our
    /// ephemeral private key and the peer's DID key, and seed both
    /// ratchets with them under the salt rule.
    pub fn new(private_key: &[u8], forien_did: &str, requestor_public_key: Option<&Vec<u8>>) -> (r:
        Result<ForienAgent, AwakeError>)
        ensures
            r is Ok <==> (did_to_key_spec(forien_did@) is Some && parses_priv(private_key@)),
            r is Ok ==> {
                let agent = r.unwrap();
                let shared = dh_bits(
                    pub_key_of(private_key@),
                    did_to_key_spec(forien_did@).unwrap(),
                );
                let salt = agent_salt_spec(
                    forien_did@,
                    (match requestor_public_key {
                        Some(k) => Some(k@),
                        None => None,
                    }),
                );
                &&& agent.wf()
                &&& agent.did_spec() == forien_did@
                &&& agent.prefix() is None
                &&& agent.send_count() == 0
                &&& agent.send_chain().uniform(shared, salt)
                &&& agent.recv_chain().uniform(shared, salt)
                &&& agent.send_chain().size() == 1
                &&& agent.recv_chain().size() == 1
                &&& !agent.send_chain().used(0)
                &&& !agent.recv_chain().used(0)
            },
            r is Err ==> (r == Err::<ForienAgent, AwakeError>(AwakeError::MalformedDid) <==>
                did_to_key_spec(forien_did@) is None),
            r is Err && did_to_key_spec(forien_did@) is Some ==> r == Err::<
                ForienAgent,
                AwakeError,
            >(AwakeError::CipherFailure),
    {
        let salt: Vec<u8> = match requestor_public_key {
            Some(salt_key) => {
                let did = crypto_key_to_did_key(salt_key.as_slice());
                did.as_str().as_bytes_vec()
            },
            None => forien_did.as_bytes_vec(),
        };
        let forien_key = match did_key_to_crypto_key(forien_did) {
            Ok(k) => k,
            Err(_) => {
                return Err(AwakeError::MalformedDid);
            },
        };
        let shared_secret = match diffie_helman(private_key, forien_key.as_slice()) {
            Some(s) => s,
            None => {
                return Err(AwakeError::CipherFailure);
            },
        };
        let shared_for_recv = shared_secret.clone();
        let salt_for_recv = salt.clone();
        proof {
            assert(shared_for_recv@ =~= shared_secret@);
            assert(salt_for_recv@ =~= salt@);
        }
        Ok(
            ForienAgent {
                did: forien_did.to_owned(),
                mid_prefix: None,
                next_send_id: 0,
                send_ratchet: Ratchet::new(shared_secret, true, salt),
                recieve_ratchet: Ratchet::new(shared_for_recv, false, salt_for_recv),
            },
        )
    }

    /// Rekey both ratchets at index `id` from a fresh ECDH agreement
    /// with a (possibly new) peer DID, and adopt that DID.
    pub fn set_new_shared_key(&mut self, id: usize, private_key: &[u8], forien_did: &str) -> (r:
        Result<(), AwakeError>)
        requires
            old(self).wf(),
            1 <= id,
            old(self).send_chain().size() <= id,
            old(self).recv_chain().size() <= id,
        ensures
            final(self).wf(),
            r is Ok <==> (did_to_key_spec(forien_did@) is Some && parses_priv(private_key@)),
            r is Err ==> *final(self) == *old(self),
            r is Ok ==> {
                let shared = dh_bits(
                    pub_key_of(private_key@),
                    did_to_key_spec(forien_did@).unwrap(),
                );
                &&& final(self).did_spec() == forien_did@
                &&& final(self).prefix() == old(self).prefix()
                &&& final(self).send_count() == old(self).send_count()
                &&& final(self).send_chain().size() == id as int + 1
                &&& final(self).recv_chain().size() == id as int + 1
                &&& final(self).send_chain().ikm_at(id as int) == shared
                &&& final(self).recv_chain().ikm_at(id as int) == shared
            },
    {
        let forien_key = match did_key_to_crypto_key(forien_did) {
            Ok(k) => k,
            Err(_) => {
                return Err(AwakeError::MalformedDid);
            },
        };
        let shared_secret = match diffie_helman(private_key, forien_key.as_slice()) {
            Some(s) => s,
            None => {
                return Err(AwakeError::CipherFailure);
            },
        };
        self.did = forien_did.to_owned();
        self.send_ratchet.set_new_shared_key(id, shared_secret.as_slice());
        self.recieve_ratchet.set_new_shared_key(id, shared_secret.as_slice());
        Ok(())
    }

    /// Whether the peer (by its DID key) signed this JWT payload.
    pub fn is_sender_of(&self, payload: &Transitable) -> (r: Result<bool, AwakeError>)
        ensures
            did_to_key_spec(self.did_spec()) is Some ==> r == verify_spec(
                payload@,
                did_to_key_spec(self.did_spec()).unwrap(),
            ),
            did_to_key_spec(self.did_spec()) is None ==> r == Err::<bool, AwakeError>(
                AwakeError::MalformedDid,
            ),
    {
        let key = match did_key_to_crypto_key(self.did.as_str()) {
            Ok(k) => k,
            Err(_) => {
                return Err(AwakeError::MalformedDid);
            },
        };
        payload.verify(key.as_slice())
    }

    /// Establish the post-handshake session: set the message-id prefix,
    /// adopt the peer's next DID, and rekey both ratchets at index 1
    /// with a fresh ECDH agreement from the step-4 private key.
    pub fn finalize(&mut self, private_key: &[u8], forien_did: &str, mid_prefix: Vec<u8>) -> (r:
        Result<(), AwakeError>)
        requires
            old(self).wf(),
            old(self).send_chain().size() <= 1,
            old(self).recv_chain().size() <= 1,
        ensures
            final(self).wf(),
            r is Ok <==> (did_to_key_spec(forien_did@) is Some && parses_priv(private_key@)),
            r is Err ==> *final(self) == *old(self),
            r is Ok ==> final(self).prefix() == Some(mid_prefix@) && final(self).did_spec()
                == forien_did@ && final(self).send_count() == old(self).send_count(),
            r is Ok ==> {
                let shared = dh_bits(
                    pub_key_of(private_key@),
                    did_to_key_spec(forien_did@).unwrap(),
                );
                &&& final(self).send_chain().size() == 2
                &&& final(self).recv_chain().size() == 2
                &&& final(self).send_chain().ikm_at(1) == shared
                &&& final(self).recv_chain().ikm_at(1) == shared
                &&& final(self).send_chain().salt_seq() == old(self).send_chain().salt_seq()
                &&& final(self).recv_chain().salt_seq() == old(self).recv_chain().salt_seq()
                &&& final(self).send_chain().blocks().subrange(
                    0,
                    old(self).send_chain().size(),
                ) == old(self).send_chain().blocks()
                &&& final(self).recv_chain().blocks().subrange(
                    0,
                    old(self).recv_chain().size(),
                ) == old(self).recv_chain().blocks()
            },
    {
        let forien_key = match did_key_to_crypto_key(forien_did) {
            Ok(k) => k,
            Err(_) => {
                return Err(AwakeError::MalformedDid);
            },
        };
        let shared_secret = match diffie_helman(private_key, forien_key.as_slice()) {
            Some(s) => s,
            None => {
                return Err(AwakeError::CipherFailure);
            },
        };
        self.mid_prefix = Some(mid_prefix);
        self.did = forien_did.to_owned();
        self.send_ratchet.set_new_shared_key(1, shared_secret.as_slice());
        self.recieve_ratchet.set_new_shared_key(1, shared_secret.as_slice());
        Ok(())
    }

    /// The message id for index `id`: derived from the prefix once the
    /// session is finalized, the bare decimal index before that.
    fn get_mid(&self, id: u64) -> (r: String)
        ensures
            (match self.prefix() {
                Some(p) => r@ == mid_spec(p, id),
                None => r@ == u64_dec(id as nat),
            }),
    {
        match &self.mid_prefix {
            Some(prefix) => {
                let mut key_data: Vec<u8> = Vec::new();
                key_data.extend_from_slice(prefix.as_slice());
                let count = u64_be_bytes(id);
                key_data.extend_from_slice(count.as_slice());
                proof {
                    assert(key_data@ =~= self.prefix().unwrap() + u64_be(id));
                }
                let digest = sha256_digest(key_data.as_slice());
                base64_encode(digest.as_slice())
            },
            None => u64_to_decimal(id),
        }
    }

    /// Encrypt a payload at the next send index, and hand back that
    /// index's message id with the ciphertext. The send counter then
    /// moves on, so no index is ever sealed twice.
    pub fn encrypt_for(&mut self, payload: Transitable) -> (r: Result<
        (String, Transitable),
        AwakeError,
    >)
        requires
            old(self).wf(),
            old(self).send_count() < usize::MAX,
        ensures
            final(self).wf(),
            final(self).did_spec() == old(self).did_spec(),
            final(self).prefix() == old(self).prefix(),
            final(self).recv_chain() == old(self).recv_chain(),
            final(self).send_chain().salt_seq() == old(self).send_chain().salt_seq(),
            final(self).send_chain().blocks().subrange(0, old(self).send_chain().size()) == old(
                self,
            ).send_chain().blocks(),
            final(self).send_chain().size() == (if old(self).send_chain().size()
                > old(self).send_count() + 1 {
                old(self).send_chain().size()
            } else {
                old(self).send_count() + 1
            }),
            forall|i: int|
                0 <= i < old(self).send_chain().size() ==> final(self).send_chain().ikm_at(i)
                    == old(self).send_chain().ikm_at(i),
            forall|i: int|
                old(self).send_chain().size() <= i < final(self).send_chain().size()
                    ==> final(self).send_chain().ikm_at(i) == old(self).send_chain().ikm_at(
                    old(self).send_chain().size() - 1,
                ),
            old(self).send_chain().used(old(self).send_count()) && old(self).send_count() < old(
                self,
            ).send_chain().size() ==> r == Err::<(String, Transitable), AwakeError>(
                AwakeError::AlreadyProcessed(old(self).send_count() as usize),
            ) && final(self).send_count() == old(self).send_count(),
            !(old(self).send_chain().used(old(self).send_count()) && old(self).send_count() < old(
                self,
            ).send_chain().size()) && payload@.len() > MAX_SEAL_LEN ==> r == Err::<
                (String, Transitable),
                AwakeError,
            >(AwakeError::CipherFailure) && final(self).send_count() == old(self).send_count()
                && !final(self).send_chain().used(old(self).send_count()),
            !(old(self).send_chain().used(old(self).send_count()) && old(self).send_count() < old(
                self,
            ).send_chain().size()) && payload@.len() <= MAX_SEAL_LEN ==> {
                let id = old(self).send_count();
                &&& r is Ok
                &&& final(self).send_count() == id + 1
                &&& r.unwrap().1@ == aead_enc(
                    final(self).send_chain().key_at(id),
                    final(self).send_chain().iv_at(id),
                    payload@,
                )
                &&& aead_dec(
                    final(self).send_chain().key_at(id),
                    final(self).send_chain().iv_at(id),
                    r.unwrap().1@,
                ) == Some(payload@)
                &&& (match old(self).prefix() {
                    Some(p) => r.unwrap().0@ == mid_spec(p, id as u64),
                    None => r.unwrap().0@ == u64_dec(id as nat),
                })
                &&& final(self).send_chain().used(id)
                &&& (forall|i: int|
                    0 <= i < final(self).send_chain().size() && i != id
                        ==> final(self).send_chain().used(i) == (if i
                        < old(self).send_chain().size() {
                        old(self).send_chain().used(i)
                    } else {
                        false
                    }))
            },
    {
        let id = self.next_send_id;
        let encrypted = match self.send_ratchet.process_payload(id, payload) {
            Ok(ct) => ct,
            Err(e) => {
                return Err(e);
            },
        };
        let mid = self.get_mid(id as u64);
        self.next_send_id = id + 1;
        Ok((mid, encrypted))
    }

    /// Decrypt a payload at a given receive index.
    pub fn decrypt_for(&mut self, id: usize, payload: Transitable) -> (r: Result<
        Transitable,
        AwakeError,
    >)
        requires
            old(self).wf(),
        ensures
            final(self).wf(),
            final(self).did_spec() == old(self).did_spec(),
            final(self).prefix() == old(self).prefix(),
            final(self).send_chain() == old(self).send_chain(),
            final(self).send_count() == old(self).send_count(),
            final(self).recv_chain().salt_seq() == old(self).recv_chain().salt_seq(),
            final(self).recv_chain().blocks().subrange(0, old(self).recv_chain().size()) == old(
                self,
            ).recv_chain().blocks(),
            final(self).recv_chain().size() == (if old(self).recv_chain().size() > id as int + 1 {
                old(self).recv_chain().size()
            } else {
                id as int + 1
            }),
            forall|i: int|
                0 <= i < old(self).recv_chain().size() ==> final(self).recv_chain().ikm_at(i)
                    == old(self).recv_chain().ikm_at(i),
            forall|i: int|
                old(self).recv_chain().size() <= i < final(self).recv_chain().size()
                    ==> final(self).recv_chain().ikm_at(i) == old(self).recv_chain().ikm_at(
                    old(self).recv_chain().size() - 1,
                ),
            (id < old(self).recv_chain().size() && old(self).recv_chain().used(id as int)) ==> r
                == Err::<Transitable, AwakeError>(AwakeError::AlreadyProcessed(id)),
            !(id < old(self).recv_chain().size() && old(self).recv_chain().used(id as int))
                ==> (match aead_dec(
                final(self).recv_chain().key_at(id as int),
                final(self).recv_chain().iv_at(id as int),
                payload@,
            ) {
                Some(pt) => r is Ok && r.unwrap()@ == pt && final(self).recv_chain().used(
                    id as int,
                ),
                None => r == Err::<Transitable, AwakeError>(AwakeError::CipherFailure),
            }),
            forall|i: int|
                0 <= i < final(self).recv_chain().size() && i != id
                    ==> final(self).recv_chain().used(i) == (if i
                    < old(self).recv_chain().size() {
                    old(self).recv_chain().used(i)
                } else {
                    false
                }),
            decrypt_for_post(*old(self), *final(self), id, payload@, r),
    {
        self.recieve_ratchet.process_payload(id, payload)
    }

    /// Search for the receive index whose derived message id matches,
    /// walking outward from the current chain length within the
    /// `MAX_MSGS` cap, and decrypt there; `UnknownMid` when no index
    /// within the cap derives the given id. At the first matched index
    /// the call behaves exactly as `decrypt_for` there.
    pub fn decrypt_with_mid(&mut self, mid: &str, payload: Transitable) -> (r: Result<
        Transitable,
        AwakeError,
    >)
        requires
            old(self).wf(),
        ensures
            final(self).wf(),
            old(self).prefix() is None ==> r == Err::<Transitable, AwakeError>(
                AwakeError::UnknownMid,
            ) && *final(self) == *old(self),
            old(self).prefix() matches Some(p) ==> (walk_match(
                p,
                mid@,
                old(self).recv_chain().size(),
                0,
            ) matches Some(id) ==> decrypt_for_post(
                *old(self),
                *final(self),
                id as usize,
                payload@,
                r,
            )),
            (old(self).prefix() matches Some(p) && walk_match(
                p,
                mid@,
                old(self).recv_chain().size(),
                0,
            ) is None) ==> r == Err::<Transitable, AwakeError>(AwakeError::UnknownMid)
                && *final(self) == *old(self),
            r is Ok ==> (old(self).prefix() matches Some(p) && (exists|id: u64|
                id < MAX_MSGS && #[trigger] mid_spec(p, id) == mid@ && Some(r.unwrap()@)
                    == aead_dec(
                    final(self).recv_chain().key_at(id as int),
                    final(self).recv_chain().iv_at(id as int),
                    payload@,
                ))),
            (old(self).prefix() matches Some(p) && (forall|id: u64|
                id < MAX_MSGS ==> #[trigger] mid_spec(p, id) != mid@)) ==> r == Err::<
                Transitable,
                AwakeError,
            >(AwakeError::UnknownMid),
            (old(self).prefix() matches Some(p) && (exists|id: u64|
                id < MAX_MSGS && #[trigger] mid_spec(p, id) == mid@)) ==> r != Err::<
                Transitable,
                AwakeError,
            >(AwakeError::UnknownMid),
    {
        let prefix_set = self.mid_prefix.is_some();
        if !prefix_set {
            return Err(AwakeError::UnknownMid);
        }
        let ghost p = old(self).prefix().unwrap();
        let wanted = mid.to_owned();
        let start = self.recieve_ratchet.len();
        let mut i: usize = 0;
        while (start < MAX_MSGS && i < MAX_MSGS - start) || i <= start
            invariant
                self.wf(),
                *self == *old(self),
                old(self).prefix() is Some,
                p == old(self).prefix().unwrap(),
                wanted@ == mid@,
                start as int == old(self).recv_chain().size(),
                forall|j: int|
                    0 <= j < i && start + j < MAX_MSGS ==> #[trigger] mid_spec(
                        p,
                        (start + j) as u64,
                    ) != mid@,
                forall|j: int|
                    0 < j < i && j <= start && start - j < MAX_MSGS ==> #[trigger] mid_spec(
                        p,
                        (start - j) as u64,
                    ) != mid@,
            decreases (if start < MAX_MSGS && i < MAX_MSGS - start {
                MAX_MSGS - start - i
            } else {
                0
            }) + (if i <= start {
                start - i + 1
            } else {
                0
            }),
        {
            if start < MAX_MSGS && i < MAX_MSGS - start {
                let candidate = self.get_mid((start + i) as u64);
                if candidate == wanted {
                    proof {
                        assert(mid_spec(p, (start + i) as u64) == mid@);
                        assert(walk_hit(p, mid@, start as int, i as int) == Some(
                            start as int + i as int,
                        ));
                        lemma_walk_advance(p, mid@, start as int, 0, i as int);
                        assert(walk_match(p, mid@, start as int, 0) == Some(
                            start as int + i as int,
                        ));
                    }
                    return self.decrypt_for(start + i, payload);
                }
            }
            if i <= start && start - i < MAX_MSGS {
                let candidate = self.get_mid((start - i) as u64);
                if candidate == wanted {
                    proof {
                        assert(mid_spec(p, (start - i) as u64) == mid@);
                        assert(walk_hit(p, mid@, start as int, i as int) == Some(
                            start as int - i as int,
                        )) by {
                            if (start as int) + (i as int) < (MAX_MSGS as int) {
                                assert(mid_spec(p, (start + i) as u64) != mid@);
                            }
                        }
                        lemma_walk_advance(p, mid@, start as int, 0, i as int);
                        assert(walk_match(p, mid@, start as int, 0) == Some(
                            start as int - i as int,
                        ));
                    }
                    return self.decrypt_for(start - i, payload);
                }
            }
            if i == usize::MAX {
                proof {
                    lemma_cap_covered(p, mid@, start as int, i as int + 1);
                    lemma_walk_none(p, mid@, start as int, 0);
                }
                return Err(AwakeError::UnknownMid);
            }
            i = i + 1;
        }
        proof {
            lemma_cap_covered(p, mid@, start as int, i as int);
            lemma_walk_none(p, mid@, start as int, 0);
        }
        Err(AwakeError::UnknownMid)
    }

    /// Destroy the receive keys at an index, so nothing can be decrypted
    /// there any more.
    pub fn empty_decryptor(&mut self, id: usize)
        requires
            old(self).wf(),
        ensures
            final(self).wf(),
            id < old(self).recv_chain().size() ==> final(self).recv_chain().used(id as int),
    {
        self.recieve_ratchet.empty_decryptor(id);
    }
}

} // verus!
