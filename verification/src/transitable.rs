//! The payload container: an ordered byte sequence with base58, base64
//! and UTF-8 projections, which can be signed into a JWT-shaped artifact
//! (`header.payload.signature`, each segment base64), verified against a
//! public key, and unsigned back to the payload bytes.

use vstd::prelude::*;

verus! {

use vstd::slice::{slice_index_get, slice_subrange, slice_to_vec};
use vstd::string::StrSliceExecFns;
use vstd::utf8::{valid_utf8, decode_utf8, encode_utf8};
use crate::codec::{
    b58_chars,
    b58_dec_b,
    b64_chars,
    b64_dec_b,
    base58_encode,
    base58_decode_bytes,
    base64_encode,
    base64_decode_bytes,
    utf8_to_string,
};
use crate::errors::AwakeError;
use crate::utils::{
    ecdsa_ok,
    ecdsa_sig,
    ecdsa_sign_digest,
    ecdsa_verify_digest,
    parses_priv,
    pub_key_of,
    sha512_digest,
    sha512_of,
};

/// An opaque payload: a byte sequence that travels between agents.
#[derive(Debug)]
pub struct Transitable {
    data: Vec<u8>,
}

impl View for Transitable {
    type V = Seq<u8>;

    closed spec fn view(&self) -> Seq<u8> {
        self.data@
    }
}

// ---------------------------------------------------------------------
// The JWT model, at the level of bytes.
// ---------------------------------------------------------------------

/// The fixed JWT header claimed on the wire.
pub open spec fn jwt_header_bytes() -> Seq<u8> {
    encode_utf8("{\"alg\":\"ES512\",\"typ\":\"JWT\"}"@)
}

/// A base64 segment, as the bytes of its text.
pub open spec fn seg64(b: Seq<u8>) -> Seq<u8> {
    encode_utf8(b64_chars(b))
}

/// The `.` that separates JWT segments, as a byte.
pub open spec fn dot() -> Seq<u8> {
    seq![46u8]
}

/// The signature laid over a payload: ECDSA P-256 of its SHA-512 digest.
pub open spec fn data_sig(private_key: Seq<u8>, data: Seq<u8>) -> Seq<u8> {
    ecdsa_sig(private_key, sha512_of(data))
}

/// The bytes of the JWT that signing a payload produces.
pub open spec fn jwt_bytes(data: Seq<u8>, private_key: Seq<u8>) -> Seq<u8> {
    seg64(jwt_header_bytes()) + dot() + seg64(data) + dot() + seg64(
        data_sig(private_key, data),
    )
}

/// The first position at or after `from` holding a `.`, or the length
/// when there is none.
pub open spec fn find_dot(s: Seq<u8>, from: int) -> int
    decreases s.len() - from,
{
    if from >= s.len() {
        s.len() as int
    } else if from < 0 {
        0
    } else if s[from] == 46u8 {
        from
    } else {
        find_dot(s, from + 1)
    }
}

/// The three segments of a JWT, when the bytes hold exactly two dots.
pub open spec fn jwt_split(s: Seq<u8>) -> Option<(Seq<u8>, Seq<u8>, Seq<u8>)> {
    let i = find_dot(s, 0);
    let j = find_dot(s, i + 1);
    let k = find_dot(s, j + 1);
    if i < s.len() && j < s.len() && k == s.len() {
        Some((s.subrange(0, i), s.subrange(i + 1, j), s.subrange(j + 1, s.len() as int)))
    } else {
        None
    }
}

/// Segment `i` of a JWT, base64-decoded; nothing when the structure or
/// the segment's base64 is malformed.
pub open spec fn jwt_section_spec(data: Seq<u8>, i: int) -> Option<Seq<u8>> {
    match jwt_split(data) {
        Some(secs) => {
            if i == 0 {
                b64_dec_b(secs.0)
            } else if i == 1 {
                b64_dec_b(secs.1)
            } else {
                b64_dec_b(secs.2)
            }
        },
        None => None,
    }
}

/// What verification returns: the ECDSA verdict over the decoded payload
/// and signature segments, or `MalformedJwt` when the structure is bad.
pub open spec fn verify_spec(data: Seq<u8>, key: Seq<u8>) -> Result<bool, AwakeError> {
    match (jwt_section_spec(data, 1), jwt_section_spec(data, 2)) {
        (Some(payload), Some(sig)) => Ok(ecdsa_ok(key, sha512_of(payload), sig)),
        _ => Err(AwakeError::MalformedJwt),
    }
}

/// A byte string free of `.`.
pub open spec fn dot_free(s: Seq<u8>) -> bool {
    forall|i: int| 0 <= i < s.len() ==> s[i] != 46u8
}

// ---------------------------------------------------------------------
// Lemmas: splitting recovers what joining laid down.
// ---------------------------------------------------------------------

proof fn lemma_find_dot_props(s: Seq<u8>, from: int)
    requires
        0 <= from <= s.len(),
    ensures
        from <= find_dot(s, from) <= s.len(),
        find_dot(s, from) < s.len() ==> s[find_dot(s, from)] == 46u8,
        forall|m: int| from <= m < find_dot(s, from) ==> s[m] != 46u8,
    decreases s.len() - from,
{
    if from < s.len() && s[from] != 46u8 {
        lemma_find_dot_props(s, from + 1);
    }
}

proof fn lemma_find_dot_is(s: Seq<u8>, from: int, r: int)
    requires
        0 <= from <= r <= s.len(),
        r < s.len() ==> s[r] == 46u8,
        forall|m: int| from <= m < r ==> s[m] != 46u8,
    ensures
        find_dot(s, from) == r,
{
    lemma_find_dot_props(s, from);
    let f = find_dot(s, from);
    if f < r {
        assert(s[f] != 46u8);
    } else if r < f {
        assert(s[r] != 46u8);
    }
}

/// Joining three dot-free segments with two dots and splitting again
/// gives the segments back.
pub proof fn lemma_jwt_split_of_join(a: Seq<u8>, b: Seq<u8>, c: Seq<u8>)
    requires
        dot_free(a),
        dot_free(b),
        dot_free(c),
    ensures
        jwt_split(a + dot() + b + dot() + c) == Some((a, b, c)),
{
    let s = a + dot() + b + dot() + c;
    let i = a.len() as int;
    let j: int = a.len() as int + 1 + b.len() as int;
    assert(s.len() == a.len() + b.len() + c.len() + 2);
    assert(s[i] == 46u8);
    assert(s[j as int] == 46u8);
    assert forall|m: int| 0 <= m < i implies s[m] != 46u8 by {
        assert(s[m] == a[m]);
    }
    lemma_find_dot_is(s, 0, i);
    assert forall|m: int| i + 1 <= m < j implies s[m] != 46u8 by {
        assert(s[m] == b[m - i - 1]);
    }
    lemma_find_dot_is(s, i + 1, j as int);
    assert forall|m: int| j + 1 <= m < s.len() implies s[m] != 46u8 by {
        assert(s[m] == c[m - j - 1]);
    }
    lemma_find_dot_is(s, j + 1, s.len() as int);
    assert(s.subrange(0, i) =~= a);
    assert(s.subrange(i + 1, j as int) =~= b);
    assert(s.subrange(j + 1, s.len() as int) =~= c);
}

// ---------------------------------------------------------------------
// Executable interface.
// ---------------------------------------------------------------------

/// Find the first `.` at or after `from`, or the length when none.
fn find_dot_exec(v: &[u8], from: usize) -> (r: usize)
    requires
        from <= v@.len(),
    ensures
        r == find_dot(v@, from as int),
        from <= r <= v@.len(),
{
    let mut k = from;
    let n = v.len();
    while k < n
        invariant
            from <= k <= n == v@.len(),
            forall|m: int| from <= m < k ==> v@[m] != 46u8,
        decreases n - k,
    {
        if *slice_index_get(v, k) == 46u8 {
            proof {
                lemma_find_dot_is(v@, from as int, k as int);
            }
            return k;
        }
        k = k + 1;
    }
    proof {
        lemma_find_dot_is(v@, from as int, n as int);
    }
    n
}

impl Transitable {
    /// Build from base58 text; `MalformedDid` exactly when the text is
    /// not valid base58.
    pub fn from_base58(input: &str) -> (r: Result<Transitable, AwakeError>)
        ensures
            r is Ok <==> b58_dec_b(encode_utf8(input@)) is Some,
            r is Ok ==> r.unwrap()@ == b58_dec_b(encode_utf8(input@)).unwrap(),
    {
        match base58_decode_bytes(input.as_bytes()) {
            Some(data) => Ok(Transitable { data }),
            None => Err(AwakeError::MalformedDid),
        }
    }

    /// Build from readable text: the payload is its UTF-8 bytes.
    pub fn from_readable(input: &str) -> (r: Transitable)
        ensures
            r@ == encode_utf8(input@),
    {
        Transitable { data: input.as_bytes_vec() }
    }

    /// Build from raw bytes.
    pub fn from_bytes(input: &[u8]) -> (r: Transitable)
        ensures
            r@ == input@,
    {
        Transitable { data: slice_to_vec(input) }
    }

    /// Build from base64 text; `MalformedJwt` exactly when the text is
    /// not valid base64.
    pub fn from_base64(input: &str) -> (r: Result<Transitable, AwakeError>)
        ensures
            r is Ok <==> b64_dec_b(encode_utf8(input@)) is Some,
            r is Ok ==> r.unwrap()@ == b64_dec_b(encode_utf8(input@)).unwrap(),
    {
        match base64_decode_bytes(input.as_bytes()) {
            Some(data) => Ok(Transitable { data }),
            None => Err(AwakeError::MalformedJwt),
        }
    }

    /// The base64 projection of the payload.
    pub fn as_base64(&self) -> (r: String)
        ensures
            r@ == b64_chars(self@),
            b64_dec_b(encode_utf8(r@)) == Some(self@),
    {
        base64_encode(self.data.as_slice())
    }

    /// A copy of the payload bytes.
    pub fn as_bytes(&self) -> (r: Vec<u8>)
        ensures
            r@ == self@,
    {
        slice_to_vec(self.data.as_slice())
    }

    /// The payload bytes, borrowed.
    pub fn as_slice(&self) -> (r: &[u8])
        ensures
            r@ == self@,
    {
        self.data.as_slice()
    }

    /// The UTF-8 projection: the decoded text exactly when the payload
    /// is valid UTF-8.
    pub fn as_readable(&self) -> (r: Option<String>)
        ensures
            r is Some <==> valid_utf8(self@),
            r is Some ==> r.unwrap()@ == decode_utf8(self@),
    {
        utf8_to_string(self.data.as_slice())
    }

    /// The base58 projection of the payload.
    pub fn as_base58(&self) -> (r: String)
        ensures
            r@ == b58_chars(self@),
            b58_dec_b(encode_utf8(r@)) == Some(self@),
    {
        base58_encode(self.data.as_slice())
    }

    /// An owned duplicate of this payload.
    pub fn duplicate(&self) -> (r: Transitable)
        ensures
            r@ == self@,
    {
        Transitable { data: slice_to_vec(self.data.as_slice()) }
    }

    /// Sign the payload into a JWT: `b64(header).b64(payload).b64(sig)`,
    /// the signature being ECDSA P-256 over the payload's SHA-512 digest.
    /// Succeeds exactly when the key bytes are a valid secret scalar, and
    /// then the JWT unsings back to this payload and verifies under the
    /// matching public key.
    pub fn sign(&self, private_key: &[u8]) -> (r: Result<Transitable, AwakeError>)
        ensures
            r is Ok <==> parses_priv(private_key@),
            r is Ok ==> r.unwrap()@ == jwt_bytes(self@, private_key@),
            r is Ok ==> jwt_section_spec(r.unwrap()@, 1) == Some(self@),
            r is Ok ==> jwt_section_spec(r.unwrap()@, 2) == Some(
                data_sig(private_key@, self@),
            ),
            r is Ok ==> verify_spec(r.unwrap()@, pub_key_of(private_key@)) == Ok::<
                bool,
                AwakeError,
            >(true),
            r is Ok ==> valid_utf8(r.unwrap()@),
    {
        let digest = sha512_digest(self.data.as_slice());
        let sig = match ecdsa_sign_digest(private_key, digest.as_slice()) {
            Some(s) => s,
            None => {
                return Err(AwakeError::CipherFailure);
            },
        };
        let header: &str = "{\"alg\":\"ES512\",\"typ\":\"JWT\"}";
        let h64 = base64_encode(header.as_bytes());
        let p64 = base64_encode(self.data.as_slice());
        let s64 = base64_encode(sig.as_slice());
        let mut out: Vec<u8> = Vec::new();
        out.extend_from_slice(h64.as_str().as_bytes());
        out.push(46u8);
        out.extend_from_slice(p64.as_str().as_bytes());
        out.push(46u8);
        out.extend_from_slice(s64.as_str().as_bytes());
        proof {
            broadcast use vstd::utf8::encode_utf8_valid_utf8, vstd::utf8::valid_utf8_concat,
                vstd::utf8::is_ascii_chars_encode_utf8;

            let ha = seg64(jwt_header_bytes());
            let pa = seg64(self@);
            let sa = seg64(data_sig(private_key@, self@));
            assert(out@ =~= ha + dot() + pa + dot() + sa);
            lemma_jwt_split_of_join(ha, pa, sa);
            assert(vstd::utf8::is_ascii_chars(seq!['.']));
            assert(dot() =~= encode_utf8(seq!['.']));
            assert(valid_utf8(ha + dot()));
            assert(valid_utf8(ha + dot() + pa));
            assert(valid_utf8(ha + dot() + pa + dot()));
            assert(valid_utf8(out@));
        }
        Ok(Transitable { data: out })
    }

    /// Verify the JWT's signature segment over its payload segment with
    /// the given public key; `MalformedJwt` when the structure is bad.
    pub fn verify(&self, public_key: &[u8]) -> (r: Result<bool, AwakeError>)
        ensures
            r == verify_spec(self@, public_key@),
    {
        let payload = match self.get_jwt_section(1) {
            Ok(p) => p,
            Err(e) => {
                return Err(e);
            },
        };
        let sig = match self.get_jwt_section(2) {
            Ok(s) => s,
            Err(e) => {
                return Err(e);
            },
        };
        let digest = sha512_digest(payload.as_slice());
        Ok(ecdsa_verify_digest(public_key, digest.as_slice(), sig.as_slice()))
    }

    /// Segment `i` of the JWT, base64-decoded.
    pub fn get_jwt_section(&self, i: usize) -> (r: Result<Vec<u8>, AwakeError>)
        requires
            i < 3,
        ensures
            r is Ok <==> jwt_section_spec(self@, i as int) is Some,
            r is Ok ==> r.unwrap()@ == jwt_section_spec(self@, i as int).unwrap(),
            r is Err ==> r == Err::<Vec<u8>, AwakeError>(AwakeError::MalformedJwt),
    {
        let v = self.data.as_slice();
        let n = v.len();
        let d1 = find_dot_exec(v, 0);
        if d1 == n {
            return Err(AwakeError::MalformedJwt);
        }
        let d2 = find_dot_exec(v, d1 + 1);
        if d2 == n {
            return Err(AwakeError::MalformedJwt);
        }
        let d3 = find_dot_exec(v, d2 + 1);
        if d3 != n {
            return Err(AwakeError::MalformedJwt);
        }
        let section: &[u8] = if i == 0 {
            slice_subrange(v, 0, d1)
        } else if i == 1 {
            slice_subrange(v, d1 + 1, d2)
        } else {
            slice_subrange(v, d2 + 1, n)
        };
        match base64_decode_bytes(section) {
            Some(bytes) => Ok(bytes),
            None => Err(AwakeError::MalformedJwt),
        }
    }

    /// Unsign the JWT: the base64-decoded payload segment.
    pub fn unsign(&self) -> (r: Result<Transitable, AwakeError>)
        ensures
            r is Ok <==> jwt_section_spec(self@, 1) is Some,
            r is Ok ==> r.unwrap()@ == jwt_section_spec(self@, 1).unwrap(),
    {
        let data = match self.get_jwt_section(1) {
            Ok(d) => d,
            Err(e) => {
                return Err(e);
            },
        };
        Ok(Transitable { data })
    }
}

// ---------------------------------------------------------------------
// Codec and signature laws.
// ---------------------------------------------------------------------

/// Law: for every readable text, going out through the base58 projection
/// and back recovers the text.
pub fn base58_round_trip(s: &str) -> (r: Option<String>)
    ensures
        r is Some,
        r.unwrap()@ == s@,
{
    broadcast use vstd::utf8::encode_utf8_valid_utf8, vstd::utf8::encode_utf8_decode_utf8;

    let t = Transitable::from_readable(s);
    let e = t.as_base58();
    match Transitable::from_base58(e.as_str()) {
        Ok(t2) => t2.as_readable(),
        Err(_) => None,
    }
}

/// Law: for every readable text, going out through the base64 projection
/// and back recovers the text.
pub fn base64_round_trip(s: &str) -> (r: Option<String>)
    ensures
        r is Some,
        r.unwrap()@ == s@,
{
    broadcast use vstd::utf8::encode_utf8_valid_utf8, vstd::utf8::encode_utf8_decode_utf8;

    let t = Transitable::from_readable(s);
    let e = t.as_base64();
    match Transitable::from_base64(e.as_str()) {
        Ok(t2) => t2.as_readable(),
        Err(_) => None,
    }
}

/// Law: for every readable text, going out through the byte projection
/// and back recovers the text.
pub fn bytes_round_trip(s: &str) -> (r: Option<String>)
    ensures
        r is Some,
        r.unwrap()@ == s@,
{
    broadcast use vstd::utf8::encode_utf8_valid_utf8, vstd::utf8::encode_utf8_decode_utf8;

    let t = Transitable::from_readable(s);
    let e = t.as_bytes();
    let t2 = Transitable::from_bytes(e.as_slice());
    t2.as_readable()
}

/// Law: a payload signed with a private key verifies as true under the
/// matching public key.
pub fn signature_verifies(t: &Transitable, public_key: &[u8], private_key: &[u8]) -> (r: bool)
    requires
        public_key@ == pub_key_of(private_key@),
        parses_priv(private_key@),
    ensures
        r,
{
    let signed = match t.sign(private_key) {
        Ok(s) => s,
        Err(_) => {
            return false;
        },
    };
    match signed.verify(public_key) {
        Ok(b) => b,
        Err(_) => false,
    }
}

/// Law: the signature law, shown for a freshly drawn keypair.
pub fn fresh_signature_verifies(t: &Transitable) -> (r: bool)
    ensures
        r,
{
    let (public_key, private_key) = crate::utils::gen_key_pair();
    signature_verifies(t, public_key.as_slice(), private_key.as_slice())
}

/// Law: unsigning a signed payload gives the payload back.
pub fn unsign_round_trip(t: &Transitable, private_key: &[u8]) -> (r: bool)
    requires
        parses_priv(private_key@),
    ensures
        r,
{
    let signed = match t.sign(private_key) {
        Ok(s) => s,
        Err(_) => {
            return false;
        },
    };
    match signed.unsign() {
        Ok(u) => {
            let a = u.as_bytes();
            let b = t.as_bytes();
            proof {
                assert(a@ == b@);
            }
            a == b
        },
        Err(_) => false,
    }
}

/// Law: the unsign round trip, shown for a freshly drawn keypair.
pub fn fresh_unsign_round_trip(t: &Transitable) -> (r: bool)
    ensures
        r,
{
    let (_public_key, private_key) = crate::utils::gen_key_pair();
    unsign_round_trip(t, private_key.as_slice())
}

} // verus!
