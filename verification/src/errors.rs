use vstd::prelude::*;

verus! {

/// Everything that can go wrong inside the AWAKE core.
#[derive(PartialEq, Eq, Structural, Debug)]
pub enum AwakeError {
    /// A DID string did not start with `did:key:zDn`, its base58 tail did
    /// not decode, or the decoded bytes were not a P-256 public key.
    MalformedDid,
    /// A JWT did not have three `.`-separated base64 segments, or a segment
    /// did not decode.
    MalformedJwt,
    /// An envelope was not valid JSON or lacked a required field.
    MalformedEnvelope,
    /// A state-mutating call was made after the handshake was bound.
    HandshakeClosed,
    /// The ratchet element at this index has already encrypted or decrypted
    /// a payload, or has already produced its successor.
    AlreadyProcessed(usize),
    /// Authenticated decryption failed, or key material could not be used.
    CipherFailure,
    /// No known agent derives the supplied message id.
    UnknownMid,
    /// The host judged the peer's capabilities invalid.
    CapabilitiesRejected,
    /// The host judged the peer's UCAN invalid.
    UcanRejected,
    /// The host judged the out-of-band PIN invalid.
    PinRejected,
}

impl AwakeError {
    /// A short human-readable name for the error, for diagnostics.
    pub fn describe(&self) -> (r: String)
        ensures
            r@.len() > 0,
    {
        let s: &str = match self {
            AwakeError::MalformedDid => "malformed did",
            AwakeError::MalformedJwt => "malformed jwt",
            AwakeError::MalformedEnvelope => "malformed envelope",
            AwakeError::HandshakeClosed => "handshake closed",
            AwakeError::AlreadyProcessed(_) => "already processed",
            AwakeError::CipherFailure => "cipher failure",
            AwakeError::UnknownMid => "unknown mid",
            AwakeError::CapabilitiesRejected => "capabilities rejected",
            AwakeError::UcanRejected => "ucan rejected",
            AwakeError::PinRejected => "pin rejected",
        };
        proof {
            reveal_strlit("malformed did");
            reveal_strlit("malformed jwt");
            reveal_strlit("malformed envelope");
            reveal_strlit("handshake closed");
            reveal_strlit("already processed");
            reveal_strlit("cipher failure");
            reveal_strlit("unknown mid");
            reveal_strlit("capabilities rejected");
            reveal_strlit("ucan rejected");
            reveal_strlit("pin rejected");
        }
        s.to_owned()
    }
}

} // verus!
