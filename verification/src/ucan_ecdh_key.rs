//! The UCAN key-material adapter: a P-256 identity exposed as a signer
//! and verifier for capability tokens. It advertises the `ES256` JWT
//! algorithm name while signing ECDSA over a SHA-512 digest, matching
//! the wire behaviour of the envelopes.

use vstd::prelude::*;

verus! {

use crate::errors::AwakeError;
use crate::utils::{
    did_key_to_crypto_key,
    pub_key_of,
    did_to_key_spec,
    ecdsa_ok,
    ecdsa_sig,
    ecdsa_sign_digest,
    ecdsa_verify_digest,
    key_to_did_spec,
    parses_priv,
    sha512_digest,
    sha512_of,
    crypto_key_to_did_key,
};

/// An identity for the UCAN builder: a public key, and the private key
/// when this side can sign.
#[derive(Debug)]
pub struct UcanEcdhKey {
    public_key: Vec<u8>,
    private_key: Option<Vec<u8>>,
}

impl UcanEcdhKey {
    /// The raw public key.
    pub closed spec fn pub_spec(&self) -> Seq<u8> {
        self.public_key@
    }

    /// The raw private key, when held.
    pub closed spec fn priv_spec(&self) -> Option<Seq<u8>> {
        match self.private_key {
            Some(ref k) => Some(k@),
            None => None,
        }
    }

    /// A verify-only identity taken from a peer's DID.
    pub fn from_did(did: &str) -> (r: Result<UcanEcdhKey, AwakeError>)
        ensures
            r is Ok <==> did_to_key_spec(did@) is Some,
            r is Ok ==> r.unwrap().pub_spec() == did_to_key_spec(did@).unwrap(),
            r is Ok ==> r.unwrap().priv_spec() is None,
    {
        let public_key = match did_key_to_crypto_key(did) {
            Ok(k) => k,
            Err(e) => {
                return Err(e);
            },
        };
        Ok(UcanEcdhKey { public_key, private_key: None })
    }

    /// A signing identity from an owned keypair.
    pub fn from(public_key: Vec<u8>, private_key: Vec<u8>) -> (r: UcanEcdhKey)
        ensures
            r.pub_spec() == public_key@,
            r.priv_spec() == Some(private_key@),
    {
        UcanEcdhKey { public_key, private_key: Some(private_key) }
    }

    /// The JWT algorithm name this identity advertises.
    pub fn get_jwt_algorithm_name(&self) -> (r: String)
        ensures
            r@ == "ES256"@,
    {
        "ES256".to_owned()
    }

    /// The `did:key` form of the public key.
    pub fn get_did(&self) -> (r: String)
        ensures
            r@ == key_to_did_spec(self.pub_spec()),
    {
        crypto_key_to_did_key(self.public_key.as_slice())
    }

    /// Sign a payload: ECDSA P-256 over its SHA-512 digest. Succeeds
    /// exactly when a valid private key is held.
    pub fn sign(&self, payload: &[u8]) -> (r: Result<Vec<u8>, AwakeError>)
        ensures
            r is Ok <==> (match self.priv_spec() {
                Some(k) => parses_priv(k),
                None => false,
            }),
            r is Ok ==> r.unwrap()@ == ecdsa_sig(self.priv_spec().unwrap(), sha512_of(payload@)),
            r is Ok ==> ecdsa_ok(
                pub_key_of(self.priv_spec().unwrap()),
                sha512_of(payload@),
                r.unwrap()@,
            ),
    {
        let private_key = match &self.private_key {
            Some(k) => k,
            None => {
                return Err(AwakeError::CipherFailure);
            },
        };
        let digest = sha512_digest(payload);
        match ecdsa_sign_digest(private_key.as_slice(), digest.as_slice()) {
            Some(sig) => Ok(sig),
            None => Err(AwakeError::CipherFailure),
        }
    }

    /// Verify a signature over a payload's SHA-512 digest against the
    /// public key; `CipherFailure` when it does not validate.
    pub fn verify(&self, payload: &[u8], signature: &[u8]) -> (r: Result<(), AwakeError>)
        ensures
            r is Ok <==> ecdsa_ok(self.pub_spec(), sha512_of(payload@), signature@),
            r is Err ==> r == Err::<(), AwakeError>(AwakeError::CipherFailure),
    {
        let digest = sha512_digest(payload);
        if ecdsa_verify_digest(self.public_key.as_slice(), digest.as_slice(), signature) {
            Ok(())
        } else {
            Err(AwakeError::CipherFailure)
        }
    }
}

} // verus!
