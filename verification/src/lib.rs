//! End-to-end encrypted messaging core.
//!
//! Peers hold long-lived P-256 identities; pairwise symmetric keys are
//! derived by Diffie-Hellman and cached, persisted only wrapped under a local
//! wrapping key. Messages travel as `nonce || ciphertext-with-tag` envelopes,
//! base64url-framed in their text form.

use vstd::prelude::*;

pub mod bytes;
pub mod cipher;
pub mod errors;
pub mod exercise;
pub mod fingerprint;
pub mod keychain;
pub mod kv;
pub mod records;
pub mod store;
pub mod primitives;

verus! {

/// The reserved store identifiers that the core itself writes under; a peer
/// id may never collide with them.
pub open spec fn is_reserved_id(id: Seq<char>) -> bool {
    id == "wrapping-key"@ || id == "salt"@ || id == "identity"@
}

} // verus!
