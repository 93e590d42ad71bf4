//! AWAKE peer-to-peer handshake and secure-messaging core.
//!
//! Two agents, each holding a long-lived P-256 identity key, derive a
//! confidential and mutually authenticated session over a four-step
//! handshake, then exchange an ordered stream of authenticated ciphertexts
//! through a pair of symmetric ratchets.

pub mod errors;
pub mod codec;
pub mod utils;
pub mod transitable;
pub mod ratchet;
pub mod forien_agent;
pub mod json;
pub mod handshake;
pub mod ucan_ecdh_key;
