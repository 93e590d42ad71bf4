//! Crypto primitives adapter: P-256 ECDH keypairs, ECDH agreement,
//! ECDSA-over-SHA-512 signatures, HKDF-SHA256, AES-256-GCM, digests, and
//! the `did:key:zDn` codec.
//!
//! Every primitive is performed by an outside crate behind a trusted
//! wrapper; what a primitive returns is named by an uninterpreted spec
//! function of its inputs, and only facts that the outside crate's
//! documentation plainly gives are stated beside the name.

use vstd::prelude::*;

use aes_gcm::aead::{Aead, KeyInit};
use p256::ecdsa::signature::hazmat::{PrehashSigner, PrehashVerifier};
use p256::elliptic_curve::sec1::ToEncodedPoint;
use sha2::Digest;

verus! {

use vstd::utf8::encode_utf8;
use crate::codec::{b58_chars, b58_dec_b, base58_encode, base58_decode_bytes};
use crate::errors::AwakeError;

// ---------------------------------------------------------------------
// Names for what the outside crypto primitives return.
// ---------------------------------------------------------------------

/// The uncompressed SEC1 encoding of the P-256 public point belonging to
/// this 32-byte secret scalar.
pub uninterp spec fn pub_key_of(private_key: Seq<u8>) -> Seq<u8>;

/// Whether these bytes are a valid SEC1-encoded P-256 public key.
pub uninterp spec fn parses_pub(key: Seq<u8>) -> bool;

/// Whether these bytes are a valid 32-byte P-256 secret scalar.
pub uninterp spec fn parses_priv(key: Seq<u8>) -> bool;

/// The raw ECDH shared bits agreed between the holders of the two public
/// keys. ECDH is symmetric, so the wrapper states the result under both
/// argument orders.
pub uninterp spec fn dh_bits(pub_a: Seq<u8>, pub_b: Seq<u8>) -> Seq<u8>;

/// The HKDF-SHA256 output of the given length for this input key
/// material, salt and info.
pub uninterp spec fn hkdf_bytes(ikm: Seq<u8>, salt: Seq<u8>, info: Seq<u8>, len: nat) -> Seq<u8>;

/// The SHA-256 digest of a byte string.
pub uninterp spec fn sha256_of(b: Seq<u8>) -> Seq<u8>;

/// The SHA-512 digest of a byte string.
pub uninterp spec fn sha512_of(b: Seq<u8>) -> Seq<u8>;

/// The deterministic (RFC 6979) ECDSA P-256 signature of a 64-byte digest
/// under a secret scalar, as 64 raw bytes `r || s`.
pub uninterp spec fn ecdsa_sig(private_key: Seq<u8>, digest: Seq<u8>) -> Seq<u8>;

/// What ECDSA P-256 verification of `sig` over `digest` under `key`
/// returns; false whenever the key or the signature does not parse.
pub uninterp spec fn ecdsa_ok(key: Seq<u8>, digest: Seq<u8>, sig: Seq<u8>) -> bool;

/// The AES-256-GCM sealing of a plaintext under a 32-byte key and a
/// 12-byte nonce: ciphertext with the 16-byte tag appended.
pub uninterp spec fn aead_enc(key: Seq<u8>, iv: Seq<u8>, pt: Seq<u8>) -> Seq<u8>;

/// What AES-256-GCM opening returns: the plaintext when the ciphertext
/// authenticates under this key and nonce, nothing otherwise.
pub uninterp spec fn aead_dec(key: Seq<u8>, iv: Seq<u8>, ct: Seq<u8>) -> Option<Seq<u8>>;

// ---------------------------------------------------------------------
// Trusted wrappers around the outside crypto crates.
// ---------------------------------------------------------------------

/// Relies on `p256::SecretKey::random` and `p256::PublicKey`: a fresh
/// P-256 keypair as `(public, private)`, the public key being the
/// uncompressed SEC1 encoding (65 bytes) of the point belonging to the
/// 32-byte secret scalar. The scalar is random, so nothing more is said
/// of it.
#[verifier::external_body]
pub fn gen_key_pair() -> (r: (Vec<u8>, Vec<u8>))
    ensures
        r.0@ == pub_key_of(r.1@),
        parses_pub(r.0@),
        parses_priv(r.1@),
        r.0@.len() == 65,
        r.1@.len() == 32,
{
    let secret = p256::SecretKey::random(&mut rand_core::OsRng);
    let public = secret.public_key().to_encoded_point(false).as_bytes().to_vec();
    (public, secret.to_bytes().to_vec())
}

/// Relies on `p256::PublicKey::from_sec1_bytes`: whether the bytes are a
/// valid SEC1-encoded P-256 public key.
#[verifier::external_body]
pub fn is_p256_public_key(key: &[u8]) -> (r: bool)
    ensures
        r == parses_pub(key@),
{
    p256::PublicKey::from_sec1_bytes(key).is_ok()
}

/// Relies on `p256::ecdh::diffie_hellman`: the raw shared bits (the
/// x-coordinate, 32 bytes) agreed between `private_key` and
/// `other_agent_key`. The agreement is a function of the unordered pair
/// of public points, so the result is stated under both orders. Fails
/// exactly when a key does not parse.
#[verifier::external_body]
pub fn diffie_helman(private_key: &[u8], other_agent_key: &[u8]) -> (r: Option<Vec<u8>>)
    ensures
        r is Some <==> (parses_priv(private_key@) && parses_pub(other_agent_key@)),
        r is Some ==> r.unwrap()@ == dh_bits(pub_key_of(private_key@), other_agent_key@),
        r is Some ==> r.unwrap()@ == dh_bits(other_agent_key@, pub_key_of(private_key@)),
        r is Some ==> r.unwrap()@.len() == 32,
{
    let secret = p256::SecretKey::from_slice(private_key).ok()?;
    let public = p256::PublicKey::from_sec1_bytes(other_agent_key).ok()?;
    let shared = p256::ecdh::diffie_hellman(secret.to_nonzero_scalar(), public.as_affine());
    Some(shared.raw_secret_bytes().as_slice().to_vec())
}

/// Relies on `hkdf::Hkdf::<Sha256>::new` and `expand`: the RFC 5869
/// HKDF-SHA256 output key material of the requested length.
#[verifier::external_body]
pub fn hkdf_sha256(ikm: &[u8], salt: &[u8], info: &[u8], len: usize) -> (r: Vec<u8>)
    requires
        len <= 8160,
    ensures
        r@ == hkdf_bytes(ikm@, salt@, info@, len as nat),
        r@.len() == len,
{
    let h = hkdf::Hkdf::<sha2::Sha256>::new(Some(salt), ikm);
    let mut okm = vec![0u8; len];
    h.expand(info, &mut okm).unwrap();
    okm
}

/// Relies on `sha2::Sha256`: the 32-byte SHA-256 digest of the input.
#[verifier::external_body]
pub fn sha256_digest(b: &[u8]) -> (r: Vec<u8>)
    ensures
        r@ == sha256_of(b@),
        r@.len() == 32,
{
    sha2::Sha256::digest(b).to_vec()
}

/// Relies on `sha2::Sha512`: the 64-byte SHA-512 digest of the input.
#[verifier::external_body]
pub fn sha512_digest(b: &[u8]) -> (r: Vec<u8>)
    ensures
        r@ == sha512_of(b@),
        r@.len() == 64,
{
    sha2::Sha512::digest(b).to_vec()
}

/// Relies on `p256::ecdsa::SigningKey` with `sign_prehash` (RFC 6979,
/// deterministic): the raw 64-byte signature over the digest. A signature
/// so produced verifies under the matching public key. Fails exactly when
/// the secret scalar does not parse.
#[verifier::external_body]
pub fn ecdsa_sign_digest(private_key: &[u8], digest: &[u8]) -> (r: Option<Vec<u8>>)
    requires
        digest@.len() == 64,
    ensures
        r is Some <==> parses_priv(private_key@),
        r is Some ==> r.unwrap()@ == ecdsa_sig(private_key@, digest@),
        r is Some ==> ecdsa_ok(pub_key_of(private_key@), digest@, r.unwrap()@),
        r is Some ==> r.unwrap()@.len() == 64,
{
    let secret = p256::SecretKey::from_slice(private_key).ok()?;
    let signer = p256::ecdsa::SigningKey::from(&secret);
    let sig: p256::ecdsa::Signature = signer.sign_prehash(digest).ok()?;
    Some(sig.to_bytes().to_vec())
}

/// Relies on `p256::ecdsa::VerifyingKey` with `verify_prehash`: whether
/// the signature validates over the digest under the key; false when the
/// key or the signature does not parse.
#[verifier::external_body]
pub fn ecdsa_verify_digest(key: &[u8], digest: &[u8], sig: &[u8]) -> (r: bool)
    ensures
        r == ecdsa_ok(key@, digest@, sig@),
{
    let verifier = match p256::ecdsa::VerifyingKey::from_sec1_bytes(key) {
        Ok(v) => v,
        Err(_) => return false,
    };
    let signature = match p256::ecdsa::Signature::from_slice(sig) {
        Ok(s) => s,
        Err(_) => return false,
    };
    verifier.verify_prehash(digest, &signature).is_ok()
}

/// The widest plaintext one AES-256-GCM sealing accepts.
pub const MAX_SEAL_LEN: u64 = 0x1000000000;

/// Relies on `aes_gcm::Aes256Gcm::encrypt`: the sealing of the plaintext,
/// with the 16-byte tag appended; opening it under the same key and nonce
/// gives the plaintext back. The cipher rejects plaintexts beyond
/// `MAX_SEAL_LEN` bytes, so longer ones are left out.
#[verifier::external_body]
pub fn aes_gcm_encrypt(key: &[u8], iv: &[u8], pt: &[u8]) -> (r: Vec<u8>)
    requires
        key@.len() == 32,
        iv@.len() == 12,
        pt@.len() <= MAX_SEAL_LEN,
    ensures
        r@ == aead_enc(key@, iv@, pt@),
        aead_dec(key@, iv@, r@) == Some(pt@),
        r@.len() == pt@.len() + 16,
{
    let cipher = aes_gcm::Aes256Gcm::new_from_slice(key).unwrap();
    cipher.encrypt(aes_gcm::Nonce::from_slice(iv), pt).unwrap()
}

/// Relies on `aes_gcm::Aes256Gcm::decrypt`: succeeds exactly when the
/// ciphertext authenticates under this key and nonce, and then returns
/// the sealed plaintext.
#[verifier::external_body]
pub fn aes_gcm_decrypt(key: &[u8], iv: &[u8], ct: &[u8]) -> (r: Option<Vec<u8>>)
    requires
        key@.len() == 32,
        iv@.len() == 12,
    ensures
        r is Some <==> aead_dec(key@, iv@, ct@) is Some,
        r is Some ==> r.unwrap()@ == aead_dec(key@, iv@, ct@).unwrap(),
{
    let cipher = aes_gcm::Aes256Gcm::new_from_slice(key).unwrap();
    cipher.decrypt(aes_gcm::Nonce::from_slice(iv), ct).ok()
}

/// Relies on `std::time::SystemTime::now`: the seconds since the Unix
/// epoch. The clock decides the result, so nothing is stated of it.
#[verifier::external_body]
pub fn now_unix_secs() -> u64 {
    match std::time::SystemTime::now().duration_since(std::time::UNIX_EPOCH) {
        Ok(d) => d.as_secs(),
        Err(_) => 0,
    }
}

// ---------------------------------------------------------------------
// DID codec and message ids: verified logic over the primitives.
// ---------------------------------------------------------------------

/// The `did:key` prefix for P-256 public keys.
pub open spec fn did_prefix() -> Seq<char> {
    "did:key:zDn"@
}

/// The DID string that stands for a raw P-256 public key.
pub open spec fn key_to_did_spec(key: Seq<u8>) -> Seq<char> {
    did_prefix() + b58_chars(key)
}

/// The raw public key that a DID string stands for, or nothing when the
/// prefix is wrong, the tail is not base58, or the bytes are not a P-256
/// point.
pub open spec fn did_to_key_spec(did: Seq<char>) -> Option<Seq<u8>> {
    if did.len() < 11 || did.subrange(0, 11) != did_prefix() {
        Option::None
    } else {
        match b58_dec_b(encode_utf8(did.subrange(11, did.len() as int))) {
            Option::Some(key) => if parses_pub(key) {
                Option::Some(key)
            } else {
                Option::None
            },
            Option::None => Option::None,
        }
    }
}

/// Render a raw P-256 public key as `did:key:zDn<base58(key)>`.
pub fn crypto_key_to_did_key(crypto_key: &[u8]) -> (r: String)
    ensures
        r@ == key_to_did_spec(crypto_key@),
        b58_dec_b(encode_utf8(r@.subrange(11, r@.len() as int))) == Some(crypto_key@),
{
    let tail = base58_encode(crypto_key);
    let mut out = "did:key:zDn".to_owned();
    out.append(tail.as_str());
    proof {
        reveal_strlit("did:key:zDn");
        assert(out@ == did_prefix() + tail@);
        assert(out@.subrange(11, out@.len() as int) =~= tail@);
    }
    out
}

/// Decode a `did:key:zDn…` string back to the raw P-256 public key it
/// stands for; `MalformedDid` exactly when `did_to_key_spec` has nothing.
pub fn did_key_to_crypto_key(did_key: &str) -> (r: Result<Vec<u8>, AwakeError>)
    ensures
        r is Ok <==> did_to_key_spec(did_key@) is Some,
        r is Ok ==> r.unwrap()@ == did_to_key_spec(did_key@).unwrap(),
        r is Err ==> r == Err::<Vec<u8>, AwakeError>(AwakeError::MalformedDid),
{
    proof {
        reveal_strlit("did:key:zDn");
    }
    let n = did_key.unicode_len();
    if n < 11 {
        return Err(AwakeError::MalformedDid);
    }
    let head = did_key.substring_char(0, 11).to_owned();
    let prefix = "did:key:zDn".to_owned();
    if !(head == prefix) {
        return Err(AwakeError::MalformedDid);
    }
    let tail = did_key.substring_char(11, n);
    let tail_bytes = tail.as_bytes();
    assert(tail_bytes@ == encode_utf8(did_key@.subrange(11, did_key@.len() as int)));
    match base58_decode_bytes(tail_bytes) {
        Some(key) => {
            if is_p256_public_key(key.as_slice()) {
                Ok(key)
            } else {
                Err(AwakeError::MalformedDid)
            }
        },
        None => Err(AwakeError::MalformedDid),
    }
}

/// Law: rendering a P-256 public key as a DID and decoding the DID
/// gives the key back.
pub fn did_round_trip(crypto_key: &[u8]) -> (r: Option<Vec<u8>>)
    ensures
        parses_pub(crypto_key@) ==> (r is Some && r.unwrap()@ == crypto_key@),
{
    let did = crypto_key_to_did_key(crypto_key);
    proof {
        reveal_strlit("did:key:zDn");
        assert(did@.subrange(0, 11) =~= did_prefix());
    }
    match did_key_to_crypto_key(did.as_str()) {
        Ok(key) => Some(key),
        Err(_) => None,
    }
}

/// The 8 big-endian bytes of a 64-bit counter.
pub open spec fn u64_be(n: u64) -> Seq<u8> {
    seq![
        (n >> 56) as u8,
        (n >> 48) as u8,
        (n >> 40) as u8,
        (n >> 32) as u8,
        (n >> 24) as u8,
        (n >> 16) as u8,
        (n >> 8) as u8,
        n as u8,
    ]
}

/// Render a 64-bit counter as its 8 big-endian bytes.
pub fn u64_be_bytes(n: u64) -> (r: Vec<u8>)
    ensures
        r@ == u64_be(n),
{
    let mut out: Vec<u8> = Vec::new();
    out.push((n >> 56) as u8);
    out.push((n >> 48) as u8);
    out.push((n >> 40) as u8);
    out.push((n >> 32) as u8);
    out.push((n >> 24) as u8);
    out.push((n >> 16) as u8);
    out.push((n >> 8) as u8);
    out.push(n as u8);
    proof {
        assert(out@ =~= u64_be(n));
    }
    out
}

/// The decimal rendering of a 64-bit counter.
pub open spec fn u64_dec(n: nat) -> Seq<char>
    decreases n,
{
    if n < 10 {
        seq![((48 + n) as u8) as char]
    } else {
        u64_dec(n / 10) + seq![((48 + n % 10) as u8) as char]
    }
}

/// Render a 64-bit counter in decimal.
pub fn u64_to_decimal(n: u64) -> (r: String)
    ensures
        r@ == u64_dec(n as nat),
{
    broadcast use vstd::utf8::is_ascii_chars_encode_utf8, vstd::utf8::encode_utf8_valid_utf8,
        vstd::utf8::encode_utf8_decode_utf8;

    let mut digits: Vec<u8> = Vec::new();
    let mut m = n;
    if m == 0 {
        digits.push(48u8);
    }
    proof {
        let rev0 = Seq::new(digits@.len(), |i: int| ((digits@[digits@.len() - 1 - i]) as char));
        if n == 0 {
            assert(rev0 =~= seq![((48u8) as char)]);
        } else {
            assert(u64_dec(n as nat) =~= u64_dec(n as nat) + rev0);
        }
    }
    while m > 0
        invariant
            m > 0 ==> u64_dec(n as nat) == u64_dec(m as nat) + (Seq::new(
                digits@.len(),
                |i: int| ((digits@[digits@.len() - 1 - i]) as char),
            )),
            m == 0 ==> u64_dec(n as nat) == (Seq::new(
                digits@.len(),
                |i: int| ((digits@[digits@.len() - 1 - i]) as char),
            )),
            forall|i: int| 0 <= i < digits@.len() ==> 48 <= #[trigger] digits@[i] <= 57,
        decreases m,
    {
        let ghost pred = digits@;
        let d: u8 = (m % 10) as u8 + 48;
        digits.push(d);
        let next = m / 10;
        proof {
            let revd = Seq::new(digits@.len(), |i: int| ((digits@[digits@.len() - 1 - i]) as char));
            let revp = Seq::new(pred.len(), |i: int| ((pred[pred.len() - 1 - i]) as char));
            assert(revd =~= seq![(d as char)] + revp);
            if next > 0 {
                assert(u64_dec(m as nat) == u64_dec((m / 10) as nat) + seq![(d as char)]);
                assert(u64_dec(n as nat) =~= u64_dec(next as nat) + revd);
            } else {
                assert(m < 10);
                assert(u64_dec(m as nat) == seq![(d as char)]);
                assert(u64_dec(n as nat) =~= revd);
            }
        }
        m = next;
    }
    let ghost chars = Seq::new(digits@.len(), |i: int| ((digits@[digits@.len() - 1 - i]) as char));
    let mut out: Vec<u8> = Vec::new();
    let total = digits.len();
    let mut k: usize = 0;
    while k < total
        invariant
            k <= total == digits@.len(),
            chars == Seq::new(digits@.len(), |i: int| ((digits@[digits@.len() - 1 - i]) as char)),
            forall|i: int| 0 <= i < digits@.len() ==> 48 <= #[trigger] digits@[i] <= 57,
            out@.len() == k,
            forall|i: int| 0 <= i < k ==> #[trigger] out@[i] == (chars[i] as u8),
        decreases total - k,
    {
        out.push(digits[total - 1 - k]);
        k = k + 1;
    }
    proof {
        assert forall|i: int| 0 <= i < chars.len() implies '\0' <= #[trigger] chars[i]
            <= '\u{7f}' by {
            assert(chars[i] == ((digits@[digits@.len() - 1 - i]) as char));
        }
        assert(vstd::utf8::is_ascii_chars(chars));
        assert(encode_utf8(chars) =~= out@);
        assert(u64_dec(n as nat) == chars);
    }
    match crate::codec::utf8_to_string(out.as_slice()) {
        Some(sout) => sout,
        None => vstd::pervasive::unreached(),
    }
}

/// The message id digest: SHA-256 over the two raw keys and, when given,
/// the big-endian message counter.
pub open spec fn message_id_spec(key1: Seq<u8>, key2: Seq<u8>, count: Option<u64>) -> Seq<u8> {
    match count {
        Option::Some(n) => sha256_of(key1 + key2 + u64_be(n)),
        Option::None => sha256_of(key1 + key2),
    }
}

/// Digest two raw keys (and an optional message counter) into a message
/// id.
pub fn get_message_id(key1: &[u8], key2: &[u8], message_count: Option<u64>) -> (r: Vec<u8>)
    ensures
        r@ == message_id_spec(key1@, key2@, message_count),
        r@.len() == 32,
{
    let mut data: Vec<u8> = Vec::new();
    data.extend_from_slice(key1);
    data.extend_from_slice(key2);
    match message_count {
        Some(n) => {
            let nb = u64_be_bytes(n);
            data.extend_from_slice(nb.as_slice());
            proof {
                assert(data@ =~= key1@ + key2@ + u64_be(n));
            }
        },
        None => {
            proof {
                assert(data@ =~= key1@ + key2@);
            }
        },
    }
    sha256_digest(data.as_slice())
}

} // verus!

verus! {

use vstd::pervasive::cloned;
use vstd::std_specs::hash::{obeys_key_model, builds_valid_hashers};
use vstd::std_specs::iter::IteratorSpec;

/// Whether cloning a value of this type can only hand the value back.
pub open spec fn clone_is_exact<T: Clone>() -> bool {
    forall|a: T, b: T| #[trigger] cloned::<T>(a, b) ==> a == b
}

/// Advance any iterator one step, with the standard iterator contract.
fn iter_next<I: core::iter::Iterator>(it: &mut I) -> (r: Option<I::Item>)
    ensures
        (*final(it)).obeys_prophetic_iter_laws() == (*old(it)).obeys_prophetic_iter_laws(),
        (*final(it)).obeys_prophetic_iter_laws() ==> (if (*old(it)).remaining().len() > 0 {
            (*final(it)).remaining() == (*old(it)).remaining().drop_first() && r == Some(
                (*old(it)).remaining()[0],
            )
        } else {
            (*final(it)).remaining() == (*old(it)).remaining() && r is None
        }),
{
    it.next()
}

/// Overlay two maps: keep everything in `top`, and fill in from `bot`
/// whatever `top` lacks.
pub fn overwrite_hash_map<K, V>(
    top: &std::collections::HashMap<K, V>,
    bot: &std::collections::HashMap<K, V>,
) -> (out: std::collections::HashMap<K, V>) where
    K: core::hash::Hash + core::cmp::Eq + Clone,
    V: Clone,

    ensures
        (obeys_key_model::<K>() && builds_valid_hashers::<std::collections::hash_map::RandomState>()
            && clone_is_exact::<K>() && clone_is_exact::<V>()) ==> out@
            == bot@.union_prefer_right(top@),
{
    broadcast use vstd::std_specs::hash::group_hash_axioms;

    let ghost ok = obeys_key_model::<K>() && builds_valid_hashers::<
        std::collections::hash_map::RandomState,
    >() && clone_is_exact::<K>() && clone_is_exact::<V>();
    let mut out = top.clone();
    let mut it = bot.iter();
    let ghost gpairs = it.remaining();
    let ghost mut cnt: int = 0;
    let n = bot.len();
    let mut i: usize = 0;
    while i < n
        invariant
            i <= n,
            cnt == i,
            ok ==> n == gpairs.len(),
            ok == (obeys_key_model::<K>() && builds_valid_hashers::<
                std::collections::hash_map::RandomState,
            >() && clone_is_exact::<K>() && clone_is_exact::<V>()),
            0 <= cnt,
            ok ==> cnt + it.remaining().len() == gpairs.len(),
            ok ==> it.remaining() == gpairs.subrange(cnt, gpairs.len() as int),
            ok ==> (forall|j: int|
                0 <= j < gpairs.len() ==> bot@.contains_key(*(#[trigger] gpairs[j]).0)
                    && bot@[*gpairs[j].0] == *gpairs[j].1),
            ok ==> (forall|k: K|
                #[trigger] out@.contains_key(k) <==> (top@.contains_key(k) || (exists|j: int|
                    0 <= j < cnt && *(#[trigger] gpairs[j]).0 == k))),
            ok ==> (forall|k: K|
                #[trigger] top@.contains_key(k) ==> out@.contains_key(k) && out@[k] == top@[k]),
            ok ==> (forall|k: K|
                #[trigger] out@.contains_key(k) && !top@.contains_key(k) ==> bot@.contains_key(k)
                    && out@[k] == bot@[k]),
        decreases n - i,
    {
        let next_pair = iter_next(&mut it);
        match next_pair {
            Some(pair) => {
                let ghost pre_out = out@;
                proof {
                    if ok {
                        assert(pair == gpairs[cnt]);
                        assert(it.remaining() =~= gpairs.subrange(cnt + 1, gpairs.len() as int));
                    }
                }
                let (key, value) = pair;
                if !out.contains_key(key) {
                    let key_copy = key.clone();
                    let value_copy = value.clone();
                    proof {
                        if ok {
                            assert(cloned::<K>(*key, key_copy));
                            assert(cloned::<V>(*value, value_copy));
                            assert(key_copy == *key && value_copy == *value);
                        }
                    }
                    out.insert(key_copy, value_copy);
                }
                proof {
                    if ok {
                        let kk = *gpairs[cnt].0;
                        assert(bot@.contains_key(kk) && bot@[kk] == *gpairs[cnt].1);
                        if !pre_out.contains_key(kk) {
                            assert(out@ == pre_out.insert(kk, *gpairs[cnt].1));
                        } else {
                            assert(out@ == pre_out);
                        }
                        assert forall|k: K| #[trigger] out@.contains_key(k) <==> (
                        top@.contains_key(k) || (exists|j: int|
                            0 <= j < cnt + 1 && *(#[trigger] gpairs[j]).0 == k)) by {
                            if out@.contains_key(k) {
                                if pre_out.contains_key(k) {
                                } else {
                                    assert(k == kk);
                                    assert(*gpairs[cnt as int].0 == k);
                                }
                            } else {
                                if top@.contains_key(k) {
                                    assert(pre_out.contains_key(k));
                                }
                                if exists|j: int|
                                    0 <= j < cnt + 1 && *(#[trigger] gpairs[j]).0 == k {
                                    let j = choose|j: int|
                                        0 <= j < cnt + 1 && *(#[trigger] gpairs[j]).0 == k;
                                    if j < cnt {
                                        assert(pre_out.contains_key(k));
                                    } else {
                                        assert(k == kk);
                                        assert(out@.contains_key(kk));
                                    }
                                }
                            }
                        }
                    }
                    cnt = cnt + 1;
                }
            },
            None => {
                proof {
                    cnt = cnt + 1;
                }
            },
        }
        i = i + 1;
    }
    proof {
        if ok {
            assert(cnt == gpairs.len());
            assert forall|k: K| bot@.contains_key(k) implies (exists|j: int|
                0 <= j < gpairs.len() && *(#[trigger] gpairs[j]).0 == k) by {
                assert(gpairs.contains((&k, &bot@[k])));
                let j = choose|j: int| 0 <= j < gpairs.len() && gpairs[j] == (&k, &bot@[k]);
                assert(*gpairs[j].0 == k);
            }
            assert(out@ =~= bot@.union_prefer_right(top@));
        }
    }
    out
}

/// A capability as carried in envelopes and UCAN facts.
pub struct UcanCapability {
    /// The resource the capability speaks of.
    pub with: String,
    /// The action allowed on it.
    pub can: String,
    /// Optional caveats, as raw JSON text.
    pub nb: Option<String>,
}

} // verus!
