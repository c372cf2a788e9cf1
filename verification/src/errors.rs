use vstd::prelude::*;

verus! {

/// The error taxonomy of the core.
///
/// `NotInitialized` is returned by every operation other than construction and
/// `init` when `init` has not yet succeeded. `WrongPassword` is the sole
/// cross-run passphrase-verification signal: the identity record was present
/// but its private part did not decrypt under the derived wrapping key.
/// `InvalidKeyFormat` covers key blobs of the wrong length and undecodable
/// points or scalars. `StorageError` covers failures of the backing store and
/// structurally unparseable persisted records.
#[derive(Debug)]
pub enum CipherError {
    NotInitialized,
    EncryptionFailed(String),
    DecryptionFailed(String),
    PeerNotFound(String),
    InvalidKeyFormat,
    StorageError(String),
    WrongPassword,
}

} // verus!
