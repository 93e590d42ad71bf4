//! The symmetric ratchet: an append-only chain of one-shot elements.
//!
//! Element 0 is derived by HKDF-SHA256 from a shared secret and a salt
//! with empty info; element i+1 uses element i's `secret` as info. Each
//! element's 76-byte block splits into a 32-byte `secret` (seed of the
//! next element), a 32-byte AES-256-GCM key and a 12-byte nonce. A key
//! and nonce are destroyed after one successful use; an element's seed
//! material is destroyed once its successor exists.

use vstd::prelude::*;

verus! {

use vstd::pervasive::unreached;
use vstd::slice::{slice_subrange, slice_to_vec};
use crate::errors::AwakeError;
use crate::transitable::Transitable;
use crate::utils::{
    aead_dec,
    aead_enc,
    aes_gcm_decrypt,
    aes_gcm_encrypt,
    diffie_helman,
    gen_key_pair,
    hkdf_bytes,
    hkdf_sha256,
    MAX_SEAL_LEN,
};

// ---------------------------------------------------------------------
// The derivation model.
// ---------------------------------------------------------------------

/// The seed part of a 76-byte derivation block.
pub open spec fn block_secret(b: Seq<u8>) -> Seq<u8> {
    b.subrange(0, 32)
}

/// The AES-256-GCM key part of a 76-byte derivation block.
pub open spec fn block_key(b: Seq<u8>) -> Seq<u8> {
    b.subrange(32, 64)
}

/// The nonce part of a 76-byte derivation block.
pub open spec fn block_iv(b: Seq<u8>) -> Seq<u8> {
    b.subrange(64, 76)
}

/// The derivation block of element `i` of a chain keyed throughout by
/// one shared secret and one salt.
pub open spec fn chain_block(ikm: Seq<u8>, salt: Seq<u8>, i: nat) -> Seq<u8>
    decreases i,
{
    if i == 0 {
        hkdf_bytes(ikm, salt, Seq::<u8>::empty(), 76)
    } else {
        hkdf_bytes(ikm, salt, block_secret(chain_block(ikm, salt, (i - 1) as nat)), 76)
    }
}

// ---------------------------------------------------------------------
// PayloadHandler: one ratchet element.
// ---------------------------------------------------------------------

/// One ratchet element. The ghost fields remember the derivation block
/// and its inputs after the one-shot fields are zeroed.
pub struct PayloadHandler {
    secret: Option<Vec<u8>>,
    aes_key: Option<Vec<u8>>,
    unique_iv: Option<Vec<u8>>,
    salt: Option<Vec<u8>>,
    shared_secret: Option<Vec<u8>>,
    model_block: Ghost<Seq<u8>>,
    model_ikm: Ghost<Seq<u8>>,
    model_salt: Ghost<Seq<u8>>,
}

impl PayloadHandler {
    /// The 76-byte block this element was derived with.
    pub closed spec fn block(&self) -> Seq<u8> {
        self.model_block@
    }

    /// The input key material this element was derived with.
    pub closed spec fn ikm(&self) -> Seq<u8> {
        self.model_ikm@
    }

    /// The salt this element was derived with.
    pub closed spec fn salt_seq(&self) -> Seq<u8> {
        self.model_salt@
    }

    /// Whether this element has already produced its successor (its seed
    /// material is gone).
    pub closed spec fn nexted(&self) -> bool {
        !(self.secret is Some && self.shared_secret is Some && self.salt is Some)
    }

    /// Whether this element has already processed a payload (its message
    /// keys are gone).
    pub closed spec fn used(&self) -> bool {
        !(self.aes_key is Some && self.unique_iv is Some)
    }

    /// The element's fields agree with its remembered block.
    pub closed spec fn wf(&self) -> bool {
        &&& self.model_block@.len() == 76
        &&& (self.secret is Some <==> self.shared_secret is Some)
        &&& (self.secret is Some <==> self.salt is Some)
        &&& (self.aes_key is Some <==> self.unique_iv is Some)
        &&& (self.secret matches Some(s) ==> s@ == block_secret(self.model_block@))
        &&& (self.aes_key matches Some(k) ==> k@ == block_key(self.model_block@))
        &&& (self.unique_iv matches Some(v) ==> v@ == block_iv(self.model_block@))
        &&& (self.salt matches Some(s) ==> s@ == self.model_salt@)
        &&& (self.shared_secret matches Some(s) ==> s@ == self.model_ikm@)
    }

    /// Derive an element from shared-secret key material, a salt, and
    /// the previous element's seed (`None` for element 0).
    pub fn new(shared_secret: &[u8], salt: Vec<u8>, last_secret: Option<&[u8]>) -> (r:
        PayloadHandler)
        ensures
            r.wf(),
            r.block() == hkdf_bytes(
                shared_secret@,
                salt@,
                (match last_secret {
                    Some(s) => s@,
                    None => Seq::<u8>::empty(),
                }),
                76,
            ),
            r.ikm() == shared_secret@,
            r.salt_seq() == salt@,
            !r.nexted(),
            !r.used(),
    {
        let ghost gsalt = salt@;
        let info: Vec<u8> = match last_secret {
            Some(s) => slice_to_vec(s),
            None => Vec::new(),
        };
        let key_data = hkdf_sha256(shared_secret, salt.as_slice(), info.as_slice(), 76);
        let secret = slice_to_vec(slice_subrange(key_data.as_slice(), 0, 32));
        let aes_key = slice_to_vec(slice_subrange(key_data.as_slice(), 32, 64));
        let unique_iv = slice_to_vec(slice_subrange(key_data.as_slice(), 64, 76));
        PayloadHandler {
            secret: Some(secret),
            aes_key: Some(aes_key),
            unique_iv: Some(unique_iv),
            salt: Some(salt),
            shared_secret: Some(slice_to_vec(shared_secret)),
            model_block: Ghost(key_data@),
            model_ikm: Ghost(shared_secret@),
            model_salt: Ghost(gsalt),
        }
    }

    /// One-shot encryption or decryption at this element. The message
    /// keys are destroyed on success and on reuse attempts they are
    /// already gone, so a second successful call is impossible. A
    /// plaintext beyond the cipher's cap is refused without touching the
    /// keys.
    pub fn proccess_payload(&mut self, id: usize, is_encrypting: bool, payload: Transitable) -> (r:
        Result<Transitable, AwakeError>)
        requires
            old(self).wf(),
        ensures
            final(self).wf(),
            final(self).block() == old(self).block(),
            final(self).ikm() == old(self).ikm(),
            final(self).salt_seq() == old(self).salt_seq(),
            final(self).nexted() == old(self).nexted(),
            old(self).used() ==> r == Err::<Transitable, AwakeError>(
                AwakeError::AlreadyProcessed(id),
            ) && final(self).used(),
            !old(self).used() && is_encrypting && payload@.len() > MAX_SEAL_LEN ==> r == Err::<
                Transitable,
                AwakeError,
            >(AwakeError::CipherFailure) && !final(self).used(),
            !old(self).used() && is_encrypting && payload@.len() <= MAX_SEAL_LEN ==> {
                &&& r is Ok
                &&& r.unwrap()@ == aead_enc(
                    block_key(old(self).block()),
                    block_iv(old(self).block()),
                    payload@,
                )
                &&& aead_dec(
                    block_key(old(self).block()),
                    block_iv(old(self).block()),
                    r.unwrap()@,
                ) == Some(payload@)
                &&& final(self).used()
            },
            !old(self).used() && !is_encrypting ==> (match aead_dec(
                block_key(old(self).block()),
                block_iv(old(self).block()),
                payload@,
            ) {
                Some(pt) => r is Ok && r.unwrap()@ == pt && final(self).used(),
                None => r == Err::<Transitable, AwakeError>(AwakeError::CipherFailure)
                    && !final(self).used(),
            }),
    {
        let outcome: Result<Vec<u8>, AwakeError> = match (&self.aes_key, &self.unique_iv) {
            (Some(k), Some(v)) => {
                if is_encrypting {
                    if payload.as_slice().len() as u64 > MAX_SEAL_LEN {
                        Err(AwakeError::CipherFailure)
                    } else {
                        Ok(aes_gcm_encrypt(k.as_slice(), v.as_slice(), payload.as_slice()))
                    }
                } else {
                    match aes_gcm_decrypt(k.as_slice(), v.as_slice(), payload.as_slice()) {
                        Some(pt) => Ok(pt),
                        None => Err(AwakeError::CipherFailure),
                    }
                }
            },
            _ => Err(AwakeError::AlreadyProcessed(id)),
        };
        match outcome {
            Ok(bytes) => {
                self.aes_key = None;
                self.unique_iv = None;
                Ok(Transitable::from_bytes(bytes.as_slice()))
            },
            Err(e) => Err(e),
        }
    }

    /// Whether this element has already produced its successor.
    pub fn has_created_next(&self) -> (r: bool)
        ensures
            r == self.nexted(),
    {
        !(self.secret.is_some() && self.shared_secret.is_some() && self.salt.is_some())
    }

    /// Produce element i+1 from this element's seed material, then
    /// destroy the seed material; fails once the successor exists.
    pub fn next(&mut self, id: usize) -> (r: Result<PayloadHandler, AwakeError>)
        requires
            old(self).wf(),
        ensures
            final(self).wf(),
            final(self).block() == old(self).block(),
            final(self).ikm() == old(self).ikm(),
            final(self).salt_seq() == old(self).salt_seq(),
            final(self).used() == old(self).used(),
            old(self).nexted() ==> r == Err::<PayloadHandler, AwakeError>(
                AwakeError::AlreadyProcessed(id),
            ) && final(self).nexted(),
            !old(self).nexted() ==> {
                &&& r is Ok
                &&& r.unwrap().wf()
                &&& r.unwrap().block() == hkdf_bytes(
                    old(self).ikm(),
                    old(self).salt_seq(),
                    block_secret(old(self).block()),
                    76,
                )
                &&& r.unwrap().ikm() == old(self).ikm()
                &&& r.unwrap().salt_seq() == old(self).salt_seq()
                &&& !r.unwrap().nexted()
                &&& !r.unwrap().used()
                &&& final(self).nexted()
            },
    {
        let handler = match (&self.secret, &self.shared_secret, &self.salt) {
            (Some(secret), Some(shared), Some(salt)) => {
                let salt_copy = slice_to_vec(salt.as_slice());
                PayloadHandler::new(shared.as_slice(), salt_copy, Some(secret.as_slice()))
            },
            _ => {
                return Err(AwakeError::AlreadyProcessed(id));
            },
        };
        self.secret = None;
        self.shared_secret = None;
        self.salt = None;
        Ok(handler)
    }

    /// Destroy this element's message keys.
    fn empty_msg_keys(&mut self)
        requires
            old(self).wf(),
        ensures
            final(self).wf(),
            final(self).block() == old(self).block(),
            final(self).ikm() == old(self).ikm(),
            final(self).salt_seq() == old(self).salt_seq(),
            final(self).nexted() == old(self).nexted(),
            final(self).used(),
    {
        self.aes_key = None;
        self.unique_iv = None;
    }
}

// ---------------------------------------------------------------------
// Ratchet: the chain.
// ---------------------------------------------------------------------

/// The ordered chain of one-shot elements, with its direction flag.
pub struct Ratchet {
    shared_secret: Vec<u8>,
    is_encrypting: bool,
    secret_chain: Vec<PayloadHandler>,
}

impl Ratchet {
    /// How many elements have been derived.
    pub closed spec fn size(&self) -> int {
        self.secret_chain@.len() as int
    }

    /// The derivation blocks of the elements, in order.
    pub closed spec fn blocks(&self) -> Seq<Seq<u8>> {
        Seq::new(self.secret_chain@.len(), |i: int| self.secret_chain@[i].block())
    }

    /// The direction flag: true encrypts, false decrypts.
    pub closed spec fn enc(&self) -> bool {
        self.is_encrypting
    }

    /// Whether element `i` has already processed a payload.
    pub closed spec fn used(&self, i: int) -> bool {
        self.secret_chain@[i].used()
    }

    /// The input key material element `i` was derived with.
    pub closed spec fn ikm_at(&self, i: int) -> Seq<u8> {
        self.secret_chain@[i].ikm()
    }

    /// The salt the chain was seeded with.
    pub closed spec fn salt_seq(&self) -> Seq<u8> {
        self.secret_chain@[0].salt_seq()
    }

    /// The AES key of element `i`.
    pub open spec fn key_at(&self, i: int) -> Seq<u8> {
        block_key(self.blocks()[i])
    }

    /// The nonce of element `i`.
    pub open spec fn iv_at(&self, i: int) -> Seq<u8> {
        block_iv(self.blocks()[i])
    }

    /// The chain is nonempty, every element is well formed and shares
    /// the salt, consecutive blocks are linked by the derivation rule,
    /// and the youngest element still holds its seed material.
    pub closed spec fn wf(&self) -> bool {
        let chain = self.secret_chain@;
        &&& chain.len() >= 1
        &&& (forall|i: int| 0 <= i < chain.len() ==> (#[trigger] chain[i]).wf())
        &&& (forall|i: int|
            0 <= i < chain.len() ==> (#[trigger] chain[i]).salt_seq() == chain[0].salt_seq())
        &&& chain[0].block() == hkdf_bytes(
            chain[0].ikm(),
            chain[0].salt_seq(),
            Seq::<u8>::empty(),
            76,
        )
        &&& (forall|i: int|
            1 <= i < chain.len() ==> (#[trigger] chain[i]).block() == hkdf_bytes(
                chain[i].ikm(),
                chain[i].salt_seq(),
                block_secret(chain[i - 1].block()),
                76,
            ))
        &&& !chain[chain.len() - 1].nexted()
    }

    /// Every element so far was derived from this shared secret, under
    /// this salt.
    pub open spec fn uniform(&self, ikm: Seq<u8>, salt: Seq<u8>) -> bool {
        &&& (forall|i: int| 0 <= i < self.size() ==> #[trigger] self.ikm_at(i) == ikm)
        &&& self.salt_seq() == salt
    }

    /// A well-formed chain holds at least its seed element, and one
    /// derivation block per element.
    pub proof fn lemma_wf_size(&self)
        requires
            self.wf(),
        ensures
            self.size() >= 1,
            self.blocks().len() == self.size(),
    {
    }

    /// Seed a chain: element 0 derived with empty info.
    pub fn new(shared_secret: Vec<u8>, is_encrypting: bool, salt: Vec<u8>) -> (r: Ratchet)
        ensures
            r.wf(),
            r.uniform(shared_secret@, salt@),
            r.size() == 1,
            r.enc() == is_encrypting,
            !r.used(0),
    {
        let handler = PayloadHandler::new(shared_secret.as_slice(), salt, None);
        let mut chain: Vec<PayloadHandler> = Vec::new();
        chain.push(handler);
        let r = Ratchet { shared_secret, is_encrypting, secret_chain: chain };
        proof {
            assert(r.blocks().len() == 1);
        }
        r
    }

    /// How many elements have been derived.
    pub fn len(&self) -> (r: usize)
        ensures
            r == self.size(),
    {
        self.secret_chain.len()
    }

    /// Derive elements until index `id` exists.
    fn gen_handlers_to(&mut self, id: usize)
        requires
            old(self).wf(),
        ensures
            final(self).wf(),
            final(self).enc() == old(self).enc(),
            final(self).salt_seq() == old(self).salt_seq(),
            final(self).size() == (if old(self).size() > id as int + 1 {
                old(self).size()
            } else {
                id as int + 1
            }),
            final(self).blocks().subrange(0, old(self).size()) == old(self).blocks(),
            forall|i: int| 0 <= i < old(self).size() ==> final(self).used(i) == old(self).used(i),
            forall|i: int| old(self).size() <= i < final(self).size() ==> !final(self).used(i),
            forall|i: int|
                0 <= i < old(self).size() ==> final(self).ikm_at(i) == old(self).ikm_at(i),
            forall|i: int|
                old(self).size() <= i < final(self).size()
                    ==> final(self).ikm_at(i) == old(self).ikm_at(old(self).size() - 1),
    {
        while self.secret_chain.len() <= id
            invariant
                self.wf(),
                self.enc() == old(self).enc(),
                self.salt_seq() == old(self).salt_seq(),
                old(self).size() <= self.size(),
                self.size() <= (if old(self).size() > id as int + 1 {
                    old(self).size()
                } else {
                    id as int + 1
                }),
                self.blocks().subrange(0, old(self).size()) == old(self).blocks(),
                forall|i: int| 0 <= i < old(self).size() ==> self.used(i) == old(self).used(i),
                forall|i: int| old(self).size() <= i < self.size() ==> !self.used(i),
                forall|i: int| 0 <= i < old(self).size() ==> self.ikm_at(i) == old(self).ikm_at(i),
                forall|i: int|
                    old(self).size() <= i < self.size() ==> self.ikm_at(i) == old(self).ikm_at(
                        old(self).size() - 1,
                    ),
            decreases id + 1 - self.secret_chain.len(),
        {
            let ghost pre = *self;
            let last = self.secret_chain.len() - 1;
            let new_handler = match self.secret_chain[last].next(last) {
                Ok(h) => h,
                Err(_) => unreached(),
            };
            self.secret_chain.push(new_handler);
            proof {
                let oldn = old(self).size();
                let pc = pre.secret_chain@;
                let cc = self.secret_chain@;
                let li = last as int;
                assert(cc.len() == pc.len() + 1);
                assert forall|i: int| 0 <= i < pc.len() && i != li implies cc[i] == pc[i] by {}
                assert(cc[li].used() == pc[li].used());
                assert(cc[li].ikm() == pc[li].ikm());
                assert(cc[li].block() == pc[li].block());
                assert(cc[pc.len() as int] == new_handler);
                assert(self.blocks() =~= pre.blocks().update(li, cc[li].block()).push(
                    new_handler.block(),
                ));
                assert(self.blocks().subrange(0, oldn) =~= old(self).blocks());
                assert forall|i: int| 0 <= i < oldn implies self.used(i) == old(self).used(i) by {
                    assert(pre.used(i) == old(self).used(i));
                    if i != li {
                        assert(cc[i] == pc[i]);
                    }
                }
                assert forall|i: int| oldn <= i < self.size() implies !self.used(i) by {
                    if i < li {
                        assert(cc[i] == pc[i]);
                        assert(!pre.used(i));
                    } else if i == li {
                        assert(!pre.used(i));
                    } else {
                        assert(cc[i] == new_handler);
                    }
                }
                assert forall|i: int| 0 <= i < oldn implies self.ikm_at(i) == old(self).ikm_at(
                    i,
                ) by {
                    assert(pre.ikm_at(i) == old(self).ikm_at(i));
                    if i != li {
                        assert(cc[i] == pc[i]);
                    }
                }
                assert forall|i: int| oldn <= i < self.size() implies self.ikm_at(i) == old(
                    self,
                ).ikm_at(oldn - 1) by {
                    if i < li {
                        assert(cc[i] == pc[i]);
                        assert(pre.ikm_at(i) == old(self).ikm_at(oldn - 1));
                    } else if i == li {
                        assert(pre.ikm_at(i) == old(self).ikm_at(oldn - 1));
                    } else {
                        assert(cc[i] == new_handler);
                        assert(new_handler.ikm() == pc[li].ikm());
                        if li >= oldn {
                            assert(pre.ikm_at(li) == old(self).ikm_at(oldn - 1));
                        } else {
                            assert(li == oldn - 1);
                            assert(pre.ikm_at(li) == old(self).ikm_at(oldn - 1));
                        }
                    }
                }
            }
        }
    }

    /// Grow the chain through index `id` and run the one-shot transform
    /// there: encryption or decryption per the direction flag.
    pub fn process_payload(&mut self, id: usize, payload: Transitable) -> (r: Result<
        Transitable,
        AwakeError,
    >)
        requires
            old(self).wf(),
        ensures
            final(self).wf(),
            final(self).enc() == old(self).enc(),
            final(self).salt_seq() == old(self).salt_seq(),
            final(self).size() == (if old(self).size() > id as int + 1 {
                old(self).size()
            } else {
                id as int + 1
            }),
            final(self).blocks().subrange(0, old(self).size()) == old(self).blocks(),
            forall|i: int|
                0 <= i < old(self).size() ==> final(self).ikm_at(i) == old(self).ikm_at(i),
            forall|i: int|
                old(self).size() <= i < final(self).size()
                    ==> final(self).ikm_at(i) == old(self).ikm_at(old(self).size() - 1),
            forall|i: int|
                0 <= i < final(self).size() && i != id ==> final(self).used(i) == (if i
                    < old(self).size() {
                    old(self).used(i)
                } else {
                    false
                }),
            (id < old(self).size() && old(self).used(id as int)) ==> r == Err::<
                Transitable,
                AwakeError,
            >(AwakeError::AlreadyProcessed(id)) && final(self).used(id as int),
            !(id < old(self).size() && old(self).used(id as int)) && old(self).enc() && payload@.len()
                > MAX_SEAL_LEN ==> r == Err::<Transitable, AwakeError>(AwakeError::CipherFailure)
                && !final(self).used(id as int),
            !(id < old(self).size() && old(self).used(id as int)) && old(self).enc() && payload@.len()
                <= MAX_SEAL_LEN ==> {
                &&& r is Ok
                &&& r.unwrap()@ == aead_enc(
                    final(self).key_at(id as int),
                    final(self).iv_at(id as int),
                    payload@,
                )
                &&& aead_dec(
                    final(self).key_at(id as int),
                    final(self).iv_at(id as int),
                    r.unwrap()@,
                ) == Some(payload@)
                &&& final(self).used(id as int)
            },
            !(id < old(self).size() && old(self).used(id as int)) && !old(self).enc() ==> (match
                aead_dec(final(self).key_at(id as int), final(self).iv_at(id as int), payload@) {
                Some(pt) => r is Ok && r.unwrap()@ == pt && final(self).used(id as int),
                None => r == Err::<Transitable, AwakeError>(AwakeError::CipherFailure)
                    && !final(self).used(id as int),
            }),
    {
        self.gen_handlers_to(id);
        let ghost mid = *self;
        let e = self.is_encrypting;
        let r = self.secret_chain[id].proccess_payload(id, e, payload);
        proof {
            let cc = self.secret_chain@;
            let mc = mid.secret_chain@;
            let ii = id as int;
            assert(cc.len() == mc.len());
            assert forall|i: int| 0 <= i < cc.len() && i != ii implies cc[i] == mc[i] by {}
            assert(cc[ii].block() == mc[ii].block());
            assert(cc[ii].ikm() == mc[ii].ikm());
            assert(mid.used(ii) == (if ii < old(self).size() {
                old(self).used(ii)
            } else {
                false
            }));
            assert(self.blocks()[ii] == cc[ii].block());
            assert(self.used(ii) == cc[ii].used());
            assert(self.key_at(ii) == block_key(mc[ii].block()));
            assert(self.iv_at(ii) == block_iv(mc[ii].block()));
            assert(self.blocks() =~= mid.blocks());
            assert(self.blocks().subrange(0, old(self).size()) =~= old(self).blocks());
            assert forall|i: int| 0 <= i < self.size() && i != ii implies self.used(i) == (if i
                < old(self).size() {
                old(self).used(i)
            } else {
                false
            }) by {
                assert(cc[i] == mc[i]);
                if i < old(self).size() {
                    assert(mid.used(i) == old(self).used(i));
                } else {
                    assert(!mid.used(i));
                }
            }
            assert forall|i: int| 0 <= i < old(self).size() implies self.ikm_at(i) == old(
                self,
            ).ikm_at(i) by {
                assert(mid.ikm_at(i) == old(self).ikm_at(i));
                if i != ii {
                    assert(cc[i] == mc[i]);
                }
            }
            assert forall|i: int| old(self).size() <= i < self.size() implies self.ikm_at(i)
                == old(self).ikm_at(old(self).size() - 1) by {
                assert(mid.ikm_at(i) == old(self).ikm_at(old(self).size() - 1));
                if i != ii {
                    assert(cc[i] == mc[i]);
                }
            }
        }
        r
    }

    /// Rekey: append element `start_id` derived from fresh shared-secret
    /// key material, keeping the salt and chaining from element
    /// `start_id - 1`'s seed.
    pub fn set_new_shared_key(&mut self, start_id: usize, shared_secret: &[u8])
        requires
            old(self).wf(),
            1 <= start_id,
            old(self).size() <= start_id,
        ensures
            final(self).wf(),
            final(self).enc() == old(self).enc(),
            final(self).salt_seq() == old(self).salt_seq(),
            final(self).size() == start_id as int + 1,
            final(self).blocks().subrange(0, old(self).size()) == old(self).blocks(),
            final(self).ikm_at(start_id as int) == shared_secret@,
            final(self).blocks()[start_id as int] == hkdf_bytes(
                shared_secret@,
                final(self).salt_seq(),
                block_secret(final(self).blocks()[start_id as int - 1]),
                76,
            ),
            forall|i: int| 0 <= i < old(self).size() ==> final(self).used(i) == old(self).used(i),
            forall|i: int|
                old(self).size() <= i < final(self).size() ==> !final(self).used(i),
    {
        self.gen_handlers_to(start_id - 1);
        let ghost pre = *self;
        let last = start_id - 1;
        let new_handler = match (&self.secret_chain[last].secret, &self.secret_chain[last].salt) {
            (Some(secret), Some(salt)) => {
                let salt_copy = slice_to_vec(salt.as_slice());
                PayloadHandler::new(shared_secret, salt_copy, Some(secret.as_slice()))
            },
            _ => unreached(),
        };
        self.secret_chain.push(new_handler);
        proof {
            let pc = pre.secret_chain@;
            let cc = self.secret_chain@;
            assert(cc.len() == pc.len() + 1);
            assert forall|i: int| 0 <= i < pc.len() implies cc[i] == pc[i] by {}
            assert(cc[pc.len() as int] == new_handler);
            assert(self.blocks() =~= pre.blocks().push(new_handler.block()));
            assert(self.blocks().subrange(0, old(self).size()) =~= old(self).blocks());
            assert forall|i: int| 0 <= i < old(self).size() implies self.used(i) == old(
                self,
            ).used(i) by {
                assert(cc[i] == pc[i]);
                assert(pre.used(i) == old(self).used(i));
            }
            assert forall|i: int| old(self).size() <= i < self.size() implies !self.used(i) by {
                if i < pc.len() {
                    assert(cc[i] == pc[i]);
                    assert(!pre.used(i));
                } else {
                    assert(cc[i] == new_handler);
                }
            }
        }
    }

    /// Destroy the message keys of element `id`, if it exists.
    pub fn empty_decryptor(&mut self, id: usize)
        requires
            old(self).wf(),
        ensures
            final(self).wf(),
            final(self).enc() == old(self).enc(),
            final(self).salt_seq() == old(self).salt_seq(),
            final(self).size() == old(self).size(),
            final(self).blocks() == old(self).blocks(),
            forall|i: int|
                0 <= i < old(self).size() ==> final(self).ikm_at(i) == old(self).ikm_at(i),
            id < old(self).size() ==> final(self).used(id as int),
            forall|i: int|
                0 <= i < old(self).size() && i != id ==> final(self).used(i) == old(self).used(i),
    {
        if id < self.secret_chain.len() {
            let ghost pre = *self;
            self.secret_chain[id].empty_msg_keys();
            proof {
                assert(self.blocks() =~= pre.blocks());
            }
        }
    }
}

// ---------------------------------------------------------------------
// Laws of the chain.
// ---------------------------------------------------------------------

/// Law: in a chain derived throughout from one shared secret and salt,
/// element `i`'s block is the pure derivation `chain_block(ikm, salt, i)`,
/// whatever order the elements were created in.
pub proof fn lemma_uniform_blocks(r: &Ratchet, ikm: Seq<u8>, salt: Seq<u8>, i: int)
    requires
        r.wf(),
        r.uniform(ikm, salt),
        0 <= i < r.size(),
    ensures
        r.blocks()[i] == chain_block(ikm, salt, i as nat),
    decreases i,
{
    let chain = r.secret_chain@;
    assert(r.blocks()[i] == chain[i].block());
    assert(r.ikm_at(i) == ikm);
    assert(chain[i].salt_seq() == chain[0].salt_seq());
    if i == 0 {
        assert(chain[0].block() == hkdf_bytes(
            chain[0].ikm(),
            chain[0].salt_seq(),
            Seq::<u8>::empty(),
            76,
        ));
    } else {
        lemma_uniform_blocks(r, ikm, salt, i - 1);
        assert(chain[i].block() == hkdf_bytes(
            chain[i].ikm(),
            chain[i].salt_seq(),
            block_secret(chain[i - 1].block()),
            76,
        ));
        assert(r.blocks()[i - 1] == chain[i - 1].block());
    }
}

/// Law: two parties that agree raw ECDH bits from mirrored keypairs and
/// seed one encrypting and one decrypting ratchet with them, under one
/// salt, transfer any payload within the cipher's cap intact at any
/// index.
pub fn mutual_ratchet_round_trip(salt: &[u8], id: usize, payload: &Transitable) -> (r: bool)
    requires
        payload@.len() <= MAX_SEAL_LEN,
    ensures
        r,
{
    let (pub_a, priv_a) = gen_key_pair();
    let (pub_b, priv_b) = gen_key_pair();
    let secret_a = match diffie_helman(priv_a.as_slice(), pub_b.as_slice()) {
        Some(s) => s,
        None => unreached(),
    };
    let secret_b = match diffie_helman(priv_b.as_slice(), pub_a.as_slice()) {
        Some(s) => s,
        None => unreached(),
    };
    proof {
        assert(secret_a@ == secret_b@);
    }
    let mut sender = Ratchet::new(secret_a, true, slice_to_vec(salt));
    let mut receiver = Ratchet::new(secret_b, false, slice_to_vec(salt));
    let sent = match sender.process_payload(id, payload.duplicate()) {
        Ok(ct) => ct,
        Err(_) => unreached(),
    };
    proof {
        assert(sender.uniform(secret_a@, salt@));
        assert(receiver.uniform(secret_b@, salt@));
        lemma_uniform_blocks(&sender, secret_a@, salt@, id as int);
    }
    let received = match receiver.process_payload(id, sent) {
        Ok(pt) => pt,
        Err(_) => {
            proof {
                assert(receiver.uniform(secret_b@, salt@));
                lemma_uniform_blocks(&receiver, secret_b@, salt@, id as int);
            }
            unreached()
        },
    };
    proof {
        assert(receiver.uniform(secret_b@, salt@));
        lemma_uniform_blocks(&receiver, secret_b@, salt@, id as int);
    }
    let got = received.as_bytes();
    let want = payload.as_bytes();
    proof {
        assert(got@ == want@);
    }
    got == want
}

} // verus!
