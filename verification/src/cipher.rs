//! The cryptographic core: identity lifecycle, wrapping-key management,
//! peer-key derivation and caching, and the authenticated-encryption message
//! envelope.
//!
//! A `Cipher` is built around a `Store`, moves from uninitialized to
//! initialized through `init` (idempotently), and afterwards derives, caches
//! and persists pairwise keys and encrypts or decrypts envelopes of the form
//! `nonce || ciphertext-with-tag`.

use vstd::prelude::*;

verus! {

use crate::bytes::{bytes_eq, clone_bytes, concat2, subvec};
use crate::errors::CipherError;
use crate::kv::KvMap;
use crate::primitives::{
    aead_open, aead_seal, aes_open, aes_seal, b64_decode, b64_encode, b64url_of, b64url_parse,
    ecdh_x, p256_check_point, p256_check_scalar, p256_dh, p256_generate_scalar,
    p256_point_valid,
    p256_public_of_scalar, p256_scalar_valid, p256_pub_of, pbkdf2_derive, pbkdf2_sha256,
    random_bytes, sha256, sha256_of, utf8_to_string, wipe,
};
use crate::records::{
    encode_identity_record, encode_peer_record, parse_identity_record, parse_peer_record,
    spec_parse_identity, spec_parse_peer,
};
use crate::store::Store;
use crate::is_reserved_id;
use vstd::utf8::valid_utf8;
use vstd::utf8::decode_utf8;
use vstd::utf8::encode_utf8;

/// The password-stretching work factor.
pub const PBKDF2_ITERATIONS: u32 = 600000;

/// The largest plaintext the AES-GCM envelope accepts.
pub const MAX_PLAINTEXT: u64 = 0x1000000000;

/// The pairwise key a persisted peer blob yields under a wrapping key:
/// parse the record, open the wrapped bytes, insist on a 32-byte key.
pub open spec fn blob_key(wk: Seq<u8>, blob: Seq<u8>) -> Option<Seq<u8>> {
    match spec_parse_peer(blob) {
        None => None,
        Some((ct, nonce)) => if nonce.len() != 12 {
            None
        } else {
            match aes_open(wk, nonce, ct) {
                None => None,
                Some(k) => if k.len() == 32 {
                    Some(k)
                } else {
                    None
                },
            }
        },
    }
}

/// The error kinds the peer-key hydration path may report, as the spec
/// assigns them: an id absent from the store is `PeerNotFound`, an
/// unparsable record `StorageError`, a wrapped key whose tag fails
/// `DecryptionFailed`, a decrypted key of the wrong length
/// `InvalidKeyFormat` — in each case allowing `StorageError` where the
/// store's own read may have failed first.
pub open spec fn hydration_error_kind(
    contents: Map<Seq<char>, Seq<u8>>,
    wk: Seq<u8>,
    id: Seq<char>,
    e: CipherError,
) -> bool {
    if !contents.contains_key(id) {
        e is PeerNotFound || e is StorageError
    } else {
        match spec_parse_peer(contents[id]) {
            None => e is StorageError,
            Some((ct, nonce)) => if nonce.len() != 12 {
                e is StorageError
            } else {
                match aes_open(wk, nonce, ct) {
                    None => e is DecryptionFailed || e is StorageError,
                    Some(k) => if k.len() == 32 {
                        e is StorageError
                    } else {
                        e is InvalidKeyFormat || e is StorageError
                    },
                }
            },
        }
    }
}

/// How `init` reads an existing identity record under a wrapping key.
pub enum IdentityLoad {
    /// The record does not parse (or its nonce has the wrong length).
    BadParse,
    /// The wrapped private part fails authenticated decryption.
    BadDecrypt,
    /// The decrypted scalar or the stored public bytes are not a matching
    /// P-256 key pair.
    BadKey,
    /// The private scalar and its public point.
    Loaded(Seq<u8>, Seq<u8>),
}

/// The outcome of reading an identity record `blob` under wrapping key `wk`.
pub open spec fn spec_load_identity(wk: Seq<u8>, blob: Seq<u8>) -> IdentityLoad {
    match spec_parse_identity(blob) {
        None => IdentityLoad::BadParse,
        Some((pkb, ct, nonce)) => if nonce.len() != 12 {
            IdentityLoad::BadParse
        } else {
            match aes_open(wk, nonce, ct) {
                None => IdentityLoad::BadDecrypt,
                Some(sk) => if sk.len() == 32 && p256_scalar_valid(sk) && pkb == p256_pub_of(sk)
                    && pkb.len() == 65 {
                    IdentityLoad::Loaded(sk, pkb)
                } else {
                    IdentityLoad::BadKey
                },
            }
        },
    }
}

/// The core instance: a store, the wrapping key, the identity pair, and the
/// in-memory pairwise-key cache.
pub struct Cipher<S: Store> {
    store: S,
    wrapping_key: Option<Vec<u8>>,
    identity_private: Option<Vec<u8>>,
    identity_public: Option<Vec<u8>>,
    peer_keys: KvMap,
    initialized: bool,
}

impl<S: Store> Cipher<S> {
    /// Whether `init` has succeeded on this instance.
    pub closed spec fn is_initialized(self) -> bool {
        self.initialized
    }

    /// The abstract contents of the owned store.
    pub closed spec fn store_contents(self) -> Map<Seq<char>, Seq<u8>> {
        self.store.contents()
    }

    /// The in-memory pairwise-key cache.
    pub closed spec fn cache(self) -> Map<Seq<char>, Seq<u8>> {
        self.peer_keys@
    }

    /// The 32 wrapping-key bytes (meaningful once initialized).
    pub closed spec fn wrap_key_bytes(self) -> Seq<u8> {
        match self.wrapping_key {
            Some(k) => k@,
            None => Seq::empty(),
        }
    }

    /// The private P-256 scalar bytes (meaningful once initialized).
    pub closed spec fn secret_key_bytes(self) -> Seq<u8> {
        match self.identity_private {
            Some(k) => k@,
            None => Seq::empty(),
        }
    }

    /// The SEC1 public identity bytes (meaningful once initialized).
    pub closed spec fn public_key_bytes(self) -> Seq<u8> {
        match self.identity_public {
            Some(k) => k@,
            None => Seq::empty(),
        }
    }

    /// The pairwise key the persisted record for `id` yields, if any.
    pub open spec fn stored_key(self, id: Seq<char>) -> Option<Seq<u8>> {
        if self.store_contents().contains_key(id) {
            blob_key(self.wrap_key_bytes(), self.store_contents()[id])
        } else {
            None
        }
    }

    /// Internal consistency: the store and cache are well formed; once
    /// initialized, the wrapping key is 32 bytes, the identity is a matching
    /// P-256 pair, and every cached pairwise key agrees with its persisted
    /// wrapped record.
    pub closed spec fn wf(self) -> bool {
        &&& self.store.inv()
        &&& self.peer_keys.wf()
        &&& (!self.initialized ==> self.peer_keys@ == Map::<Seq<char>, Seq<u8>>::empty())
        &&& (self.initialized ==> {
            &&& (self.wrapping_key matches Some(wk) && wk@.len() == 32)
            &&& (self.identity_private matches Some(sk) && sk@.len() == 32 && p256_scalar_valid(
                sk@,
            ))
            &&& (self.identity_public matches Some(pk) && pk@ == p256_pub_of(
                self.secret_key_bytes(),
            ) && p256_point_valid(pk@) && pk@.len() == 65)
            &&& (forall|id: Seq<char>|
                self.peer_keys@.contains_key(id) ==> self.stored_key(id) == Some(
                    #[trigger] self.peer_keys@[id],
                ))
        })
    }

    /// A fresh, uninitialized core around a store.
    pub fn new(store: S) -> (r: Cipher<S>)
        requires
            store.inv(),
        ensures
            r.wf(),
            !r.is_initialized(),
            r.store_contents() == store.contents(),
            r.cache() == Map::<Seq<char>, Seq<u8>>::empty(),
    {
        Cipher {
            store,
            wrapping_key: None,
            identity_private: None,
            identity_public: None,
            peer_keys: KvMap::new(),
            initialized: false,
        }
    }

    pub fn is_ready(&self) -> (r: bool)
        ensures
            r == self.is_initialized(),
    {
        self.initialized
    }

    /// Drops every cached pairwise key, wiping the secret bytes; persisted
    /// records, and so the keys they yield, are untouched.
    pub fn clear_cache(&mut self)
        requires
            old(self).wf(),
        ensures
            final(self).wf(),
            final(self).cache() == Map::<Seq<char>, Seq<u8>>::empty(),
            final(self).store_contents() == old(self).store_contents(),
            final(self).is_initialized() == old(self).is_initialized(),
            final(self).wrap_key_bytes() == old(self).wrap_key_bytes(),
            final(self).secret_key_bytes() == old(self).secret_key_bytes(),
            final(self).public_key_bytes() == old(self).public_key_bytes(),
            forall|id: Seq<char>| final(self).stored_key(id) == old(self).stored_key(id),
    {
        self.peer_keys.clear_wipe();
    }

    /// A borrow of the owned store, for inspection.
    pub fn store(&self) -> (r: &S)
        requires
            self.wf(),
        ensures
            r.inv(),
            r.contents() == self.store_contents(),
    {
        &self.store
    }

    /// Gives the store back, consuming the instance; the held secrets are
    /// wiped on the way out.
    pub fn into_store(self) -> (r: S)
        requires
            self.wf(),
        ensures
            r.inv(),
            r.contents() == self.store_contents(),
    {
        let Cipher { store, wrapping_key, identity_private, identity_public: _,
            peer_keys, initialized: _ } = self;
        match wrapping_key {
            Some(mut k) => wipe(&mut k),
            None => {},
        }
        match identity_private {
            Some(mut k) => wipe(&mut k),
            None => {},
        }
        let mut cache = peer_keys;
        cache.clear_wipe();
        store
    }

    /// The public identity, SEC1 bytes base64url-encoded.
    pub fn export_public_key(&self) -> (r: Result<String, CipherError>)
        requires
            self.wf(),
        ensures
            match r {
                Ok(s) => self.is_initialized() && s@ == b64url_of(self.public_key_bytes())
                    && b64url_parse(s@) == Some(self.public_key_bytes())
                    && self.public_key_bytes().len() == 65,
                Err(e) => !self.is_initialized() && e is NotInitialized,
            },
    {
        if !self.initialized {
            return Err(CipherError::NotInitialized);
        }
        let pk = self.identity_public.as_ref().unwrap();
        Ok(b64_encode(pk.as_slice()))
    }

    /// The human-comparable fingerprint: SHA-256 of the SEC1 public bytes,
    /// first 16 bytes, eight space-separated groups of four uppercase hex
    /// digits.
    pub fn export_fingerprint(&self) -> (r: Result<String, CipherError>)
        requires
            self.wf(),
        ensures
            match r {
                Ok(s) => self.is_initialized() && s@ == crate::fingerprint::fp_format(
                    sha256_of(self.public_key_bytes()).take(16),
                ),
                Err(e) => !self.is_initialized() && e is NotInitialized,
            },
    {
        if !self.initialized {
            return Err(CipherError::NotInitialized);
        }
        let pk = self.identity_public.as_ref().unwrap();
        let hash = sha256(pk.as_slice());
        let head = subvec(hash.as_slice(), 0, 16);
        proof {
            assert(head@ =~= sha256_of(self.public_key_bytes()).take(16));
        }
        Ok(crate::fingerprint::format_fingerprint(head.as_slice()))
    }
}

/// The password bytes `init` stretches, if a passphrase was given.
pub open spec fn pw_bytes_of(password: Option<&str>) -> Option<Seq<u8>> {
    match password {
        Some(p) => Some(encode_utf8(p@)),
        None => None,
    }
}

/// The wrapping key a reopened store determines: in passphrase mode the
/// PBKDF2 stretch against the persisted salt, in basic mode the persisted
/// 32-byte key itself. `None` when the store does not determine it (first
/// run, or corrupt basic key).
pub open spec fn wk_known(contents: Map<Seq<char>, Seq<u8>>, pw: Option<Seq<u8>>) -> Option<
    Seq<u8>,
> {
    match pw {
        Some(p) => if contents.contains_key("salt"@) {
            Some(pbkdf2_sha256(p, contents["salt"@], PBKDF2_ITERATIONS))
        } else {
            None
        },
        None => if contents.contains_key("wrapping-key"@) && contents["wrapping-key"@].len()
            == 32 {
            Some(contents["wrapping-key"@])
        } else {
            None
        },
    }
}

impl<S: Store> Cipher<S> {
    /// Brings the instance from uninitialized to initialized: prepares the
    /// store, obtains the wrapping key (drawn at random and persisted in
    /// basic mode, stretched from the passphrase against a persisted salt in
    /// passphrase mode), then loads and decrypts — or generates, wraps and
    /// persists — the P-256 identity. Idempotent: on an initialized instance
    /// it succeeds without any effect. On failure the instance stays
    /// uninitialized; only reserved ids are ever written.
    #[verifier::rlimit(100)]
    pub fn init(&mut self, password: Option<&str>) -> (r: Result<(), CipherError>)
        requires
            old(self).wf(),
        ensures
            final(self).wf(),
            final(self).cache() == old(self).cache(),
            old(self).is_initialized() ==> r is Ok && *final(self) == *old(self),
            r is Ok ==> final(self).is_initialized(),
            r is Err ==> !final(self).is_initialized(),
            r is Ok ==> final(self).public_key_bytes() == p256_pub_of(
                final(self).secret_key_bytes(),
            ) && p256_scalar_valid(final(self).secret_key_bytes()) && final(self).wrap_key_bytes().len() == 32,
            forall|id: Seq<char>|
                !is_reserved_id(id) ==> (#[trigger] final(self).store_contents().contains_key(id)
                    <==> old(self).store_contents().contains_key(id)),
            forall|id: Seq<char>|
                old(self).store_contents().contains_key(id) ==> #[trigger] final(self).store_contents().contains_key(id) && final(self).store_contents()[id] == old(
                    self,
                ).store_contents()[id],
            (!old(self).is_initialized() && password is None && old(self).store_contents().contains_key("wrapping-key"@) && old(self).store_contents()["wrapping-key"@].len() != 32) ==> (r matches Err(e)
                && (e is InvalidKeyFormat || e is StorageError)),
            (!old(self).is_initialized() && old(self).store_contents().contains_key(
                "identity"@,
            )) ==> (wk_known(old(self).store_contents(), pw_bytes_of(password)) matches Some(wk)
                ==> match spec_load_identity(wk, old(self).store_contents()["identity"@]) {
                IdentityLoad::BadParse => r matches Err(e) && e is StorageError,
                IdentityLoad::BadDecrypt => r matches Err(e) && (e is WrongPassword
                    || e is StorageError),
                IdentityLoad::BadKey => r matches Err(e) && (e is InvalidKeyFormat
                    || e is StorageError),
                IdentityLoad::Loaded(sk, pkb) => (r is Ok ==> final(self).secret_key_bytes()
                    == sk && final(self).public_key_bytes() == pkb && final(self).wrap_key_bytes()
                    == wk) && (r matches Err(e) ==> e is StorageError),
            }),
            (!old(self).is_initialized() && password is None && !old(self).store_contents().contains_key("wrapping-key"@) && !old(self).store_contents().contains_key("identity"@)) ==> (r is Ok || (r matches Err(e)
                && e is StorageError)),
            (!old(self).is_initialized() && password is Some && !old(self).store_contents().contains_key("salt"@) && !old(self).store_contents().contains_key("identity"@)) ==> (r is Ok || (r matches Err(e)
                && e is StorageError)),
            (r is Ok && !old(self).is_initialized() && password is None) ==> (final(self).store_contents().contains_key("wrapping-key"@) && final(self).store_contents()["wrapping-key"@] == final(self).wrap_key_bytes()),
            (r is Ok && !old(self).is_initialized()) ==> (password matches Some(p) ==> (final(self).store_contents().contains_key("salt"@) && final(self).wrap_key_bytes()
                == pbkdf2_sha256(
                encode_utf8(p@),
                final(self).store_contents()["salt"@],
                PBKDF2_ITERATIONS,
            ))),
            (r is Ok && !old(self).is_initialized()) ==> (final(self).store_contents().contains_key("identity"@) && spec_load_identity(
                final(self).wrap_key_bytes(),
                final(self).store_contents()["identity"@],
            ) == IdentityLoad::Loaded(
                final(self).secret_key_bytes(),
                final(self).public_key_bytes(),
            )),
    {
        proof {
            reveal_strlit("salt");
            reveal_strlit("identity");
            reveal_strlit("wrapping-key");
            assert("salt"@.len() == 4);
            assert("identity"@.len() == 8);
            assert("wrapping-key"@.len() == 12);
            assert("salt"@ != "identity"@ && "salt"@ != "wrapping-key"@ && "identity"@
                != "wrapping-key"@);
        }
        if self.initialized {
            return Ok(());
        }
        match self.store.setup() {
            Ok(_) => {},
            Err(e) => {
                return Err(e);
            },
        }
        let wk: Vec<u8>;
        match password {
            Some(pwd) => {
                let salt: Vec<u8>;
                match self.store.get("salt") {
                    Err(e) => {
                        return Err(e);
                    },
                    Ok(Some(v)) => {
                        salt = v;
                    },
                    Ok(None) => {
                        let fresh = random_bytes(32);
                        let copy = clone_bytes(fresh.as_slice());
                        match self.store.put("salt", copy) {
                            Err(e) => {
                                return Err(e);
                            },
                            Ok(_) => {},
                        }
                        salt = fresh;
                    },
                }
                wk = pbkdf2_derive(pwd.as_bytes(), salt.as_slice(), PBKDF2_ITERATIONS);
            },
            None => {
                match self.store.get("wrapping-key") {
                    Err(e) => {
                        return Err(e);
                    },
                    Ok(Some(data)) => {
                        if data.len() == 32 {
                            wk = data;
                        } else {
                            return Err(CipherError::InvalidKeyFormat);
                        }
                    },
                    Ok(None) => {
                        let fresh = random_bytes(32);
                        let copy = clone_bytes(fresh.as_slice());
                        match self.store.put("wrapping-key", copy) {
                            Err(e) => {
                                return Err(e);
                            },
                            Ok(_) => {},
                        }
                        wk = fresh;
                    },
                }
            },
        }
        match self.store.get("identity") {
            Err(e) => {
                return Err(e);
            },
            Ok(Some(blob)) => {
                match parse_identity_record(blob.as_slice()) {
                    None => {
                        return Err(
                            CipherError::StorageError("malformed identity record".to_owned()),
                        );
                    },
                    Some((pkb, ct, nonce)) => {
                        if nonce.len() != 12 {
                            return Err(
                                CipherError::StorageError("malformed identity record".to_owned()),
                            );
                        }
                        match aead_open(wk.as_slice(), nonce.as_slice(), ct.as_slice()) {
                            None => {
                                return Err(CipherError::WrongPassword);
                            },
                            Some(sk) => {
                                if sk.len() != 32 || !p256_check_scalar(sk.as_slice()) {
                                    return Err(CipherError::InvalidKeyFormat);
                                }
                                let pk = p256_public_of_scalar(sk.as_slice());
                                if !bytes_eq(pk.as_slice(), pkb.as_slice()) {
                                    return Err(CipherError::InvalidKeyFormat);
                                }
                                self.wrapping_key = Some(wk);
                                self.identity_private = Some(sk);
                                self.identity_public = Some(pk);
                                self.initialized = true;
                                Ok(())
                            },
                        }
                    },
                }
            },
            Ok(None) => {
                let sk = p256_generate_scalar();
                let pk = p256_public_of_scalar(sk.as_slice());
                let nonce = random_bytes(12);
                let ct = aead_seal(wk.as_slice(), nonce.as_slice(), sk.as_slice());
                let record = encode_identity_record(
                    pk.as_slice(),
                    ct.as_slice(),
                    nonce.as_slice(),
                );
                match self.store.put("identity", record) {
                    Err(e) => {
                        return Err(e);
                    },
                    Ok(_) => {},
                }
                proof {
                    crate::records::lemma_identity_record_round_trip(pk@, ct@, nonce@);
                }
                self.wrapping_key = Some(wk);
                self.identity_private = Some(sk);
                self.identity_public = Some(pk);
                self.initialized = true;
                Ok(())
            },
        }
    }
}

/// Whether a peer id collides with one of the reserved store ids.
fn id_is_reserved(peer_id: &str) -> (r: bool)
    ensures
        r == is_reserved_id(peer_id@),
{
    let p: String = peer_id.to_owned();
    p == "wrapping-key".to_owned() || p == "salt".to_owned() || p == "identity".to_owned()
}

impl<S: Store> Cipher<S> {
    /// Derives, caches and persists the pairwise key for a peer's
    /// base64url-encoded SEC1 public key. Idempotent: an id that already has
    /// a persisted record is left exactly as it is. The wrapped record is
    /// persisted before the key is cached, so a failure leaves no partial
    /// state. The derived key is the ECDH X coordinate, which both sides
    /// obtain identically when each registers the other's public key.
    #[verifier::rlimit(100)]
    pub fn register_peer(&mut self, peer_id: &str, public_key_b64: &str) -> (r: Result<
        (),
        CipherError,
    >)
        requires
            old(self).wf(),
        ensures
            final(self).wf(),
            final(self).is_initialized() == old(self).is_initialized(),
            final(self).wrap_key_bytes() == old(self).wrap_key_bytes(),
            final(self).secret_key_bytes() == old(self).secret_key_bytes(),
            final(self).public_key_bytes() == old(self).public_key_bytes(),
            !old(self).is_initialized() ==> (r matches Err(e) && e is NotInitialized && *final(self) == *old(self)),
            (old(self).is_initialized() && is_reserved_id(peer_id@)) ==> (r matches Err(e)
                && e is InvalidKeyFormat && *final(self) == *old(self)),
            (old(self).is_initialized() && !is_reserved_id(peer_id@) && old(self).store_contents().contains_key(peer_id@)) ==> ((r is Ok || (r matches Err(e)
                && e is StorageError)) && *final(self) == *old(self)),
            (old(self).is_initialized() && !is_reserved_id(peer_id@) && !old(self).store_contents().contains_key(peer_id@)) ==> match b64url_parse(public_key_b64@) {
                None => r matches Err(e) && (e is InvalidKeyFormat || e is StorageError)
                    && final(self).store_contents() == old(self).store_contents() && final(self).cache() == old(self).cache(),
                Some(pt) => if !p256_point_valid(pt) {
                    r matches Err(e) && (e is InvalidKeyFormat || e is StorageError) && final(self).store_contents() == old(self).store_contents() && final(self).cache() == old(self).cache()
                } else {
                    (r is Ok ==> {
                        &&& final(self).cache() == old(self).cache().insert(
                            peer_id@,
                            ecdh_x(old(self).secret_key_bytes(), pt),
                        )
                        &&& final(self).stored_key(peer_id@) == Some(
                            ecdh_x(old(self).secret_key_bytes(), pt),
                        )
                        &&& final(self).store_contents().contains_key(peer_id@)
                        &&& (forall|id: Seq<char>|
                            id != peer_id@ ==> (#[trigger] final(self).store_contents().contains_key(id) <==> old(self).store_contents().contains_key(id)) && (old(self).store_contents().contains_key(id) ==> final(self).store_contents()[id] == old(self).store_contents()[id]))
                        &&& (forall|q: Seq<u8>|
                            p256_scalar_valid(q) && pt == #[trigger] p256_pub_of(q) ==> ecdh_x(
                                old(self).secret_key_bytes(),
                                pt,
                            ) == ecdh_x(q, p256_pub_of(old(self).secret_key_bytes())))
                    }) && (r matches Err(e) ==> (e is StorageError && final(self).store_contents() == old(self).store_contents() && final(self).cache() == old(self).cache()))
                },
            },
    {
        if !self.initialized {
            return Err(CipherError::NotInitialized);
        }
        if id_is_reserved(peer_id) {
            return Err(CipherError::InvalidKeyFormat);
        }
        match self.store.has(peer_id) {
            Err(e) => {
                return Err(e);
            },
            Ok(true) => {
                return Ok(());
            },
            Ok(false) => {},
        }
        let pk_bytes = match b64_decode(public_key_b64) {
            None => {
                return Err(CipherError::InvalidKeyFormat);
            },
            Some(v) => v,
        };
        if !p256_check_point(pk_bytes.as_slice()) {
            return Err(CipherError::InvalidKeyFormat);
        }
        let sk = self.identity_private.as_ref().unwrap();
        let shared = p256_dh(sk.as_slice(), pk_bytes.as_slice());
        let wk = self.wrapping_key.as_ref().unwrap();
        let nonce = random_bytes(12);
        let sealed = aead_seal(wk.as_slice(), nonce.as_slice(), shared.as_slice());
        let record = encode_peer_record(sealed.as_slice(), nonce.as_slice());
        match self.store.put(peer_id, record) {
            Err(e) => {
                return Err(e);
            },
            Ok(_) => {},
        }
        proof {
            crate::records::lemma_peer_record_round_trip(sealed@, nonce@);
        }
        self.peer_keys.insert(peer_id, shared);
        Ok(())
    }

    /// Evicts the peer from the cache (wiping the secret) and deletes its
    /// persisted record; a missing id is not an error.
    pub fn remove_peer(&mut self, peer_id: &str) -> (r: Result<(), CipherError>)
        requires
            old(self).wf(),
        ensures
            final(self).wf(),
            final(self).is_initialized() == old(self).is_initialized(),
            final(self).wrap_key_bytes() == old(self).wrap_key_bytes(),
            final(self).secret_key_bytes() == old(self).secret_key_bytes(),
            final(self).public_key_bytes() == old(self).public_key_bytes(),
            !old(self).is_initialized() ==> (r matches Err(e) && e is NotInitialized && *final(self) == *old(self)),
            old(self).is_initialized() ==> final(self).cache() == old(self).cache().remove(
                peer_id@,
            ),
            old(self).is_initialized() ==> match r {
                Ok(_) => final(self).store_contents() == old(self).store_contents().remove(
                    peer_id@,
                ),
                Err(e) => e is StorageError && final(self).store_contents() == old(self).store_contents(),
            },
    {
        if !self.initialized {
            return Err(CipherError::NotInitialized);
        }
        match self.peer_keys.remove(peer_id) {
            Some(mut v) => {
                wipe(&mut v);
            },
            None => {},
        }
        match self.store.delete(peer_id) {
            Err(e) => {
                return Err(e);
            },
            Ok(_) => {},
        }
        Ok(())
    }

    /// Whether a persisted record exists for the peer; persistence, not the
    /// cache, is authoritative.
    pub fn has_peer(&self, peer_id: &str) -> (r: Result<bool, CipherError>)
        requires
            self.wf(),
        ensures
            !self.is_initialized() ==> (r matches Err(e) && e is NotInitialized),
            self.is_initialized() ==> match r {
                Ok(b) => b == self.store_contents().contains_key(peer_id@),
                Err(e) => e is StorageError,
            },
    {
        if !self.initialized {
            return Err(CipherError::NotInitialized);
        }
        self.store.has(peer_id)
    }

    /// Resolves the pairwise key for a peer: from the cache, or hydrated
    /// from the persisted wrapped record.
    fn get_peer_key(&mut self, peer_id: &str) -> (r: Result<Vec<u8>, CipherError>)
        requires
            old(self).wf(),
            old(self).is_initialized(),
        ensures
            final(self).wf(),
            final(self).is_initialized(),
            final(self).store_contents() == old(self).store_contents(),
            final(self).wrap_key_bytes() == old(self).wrap_key_bytes(),
            final(self).secret_key_bytes() == old(self).secret_key_bytes(),
            final(self).public_key_bytes() == old(self).public_key_bytes(),
            match r {
                Ok(k) => k@.len() == 32 && old(self).stored_key(peer_id@) == Some(k@) && final(self).cache() == old(self).cache().insert(peer_id@, k@),
                Err(e) => final(self).cache() == old(self).cache() && hydration_error_kind(
                    old(self).store_contents(),
                    old(self).wrap_key_bytes(),
                    peer_id@,
                    e,
                ) && (e is PeerNotFound ==> !old(self).store_contents().contains_key(peer_id@))
                    && !old(self).cache().contains_key(peer_id@),
            },
            match old(self).stored_key(peer_id@) {
                Some(k) => (r matches Ok(v) && v@ == k) || (r matches Err(e)
                    && e is StorageError),
                None => !(r is Ok),
            },
    {
        let cached = self.peer_keys.get(peer_id);
        match cached {
            Some(v) => {
                let k = clone_bytes(v.as_slice());
                proof {
                    assert(old(self).cache().insert(peer_id@, k@) =~= old(self).cache());
                }
                return Ok(k);
            },
            None => {},
        }
        let data = match self.store.get(peer_id) {
            Err(e) => {
                return Err(e);
            },
            Ok(None) => {
                return Err(CipherError::PeerNotFound(peer_id.to_owned()));
            },
            Ok(Some(d)) => d,
        };
        let (ct, nonce) = match parse_peer_record(data.as_slice()) {
            None => {
                return Err(CipherError::StorageError("malformed peer record".to_owned()));
            },
            Some(pair) => pair,
        };
        if nonce.len() != 12 {
            return Err(CipherError::StorageError("malformed peer record".to_owned()));
        }
        let wk = self.wrapping_key.as_ref().unwrap();
        let key = match aead_open(wk.as_slice(), nonce.as_slice(), ct.as_slice()) {
            None => {
                return Err(CipherError::DecryptionFailed("peer record".to_owned()));
            },
            Some(k) => k,
        };
        if key.len() != 32 {
            return Err(CipherError::InvalidKeyFormat);
        }
        let copy = clone_bytes(key.as_slice());
        self.peer_keys.insert(peer_id, key);
        Ok(copy)
    }

    /// Encrypts bytes for a peer: a fresh 12-byte nonce, AES-256-GCM under
    /// the pairwise key with empty associated data, and the envelope
    /// `nonce || ciphertext-with-tag`. What it produces, `decrypt_bytes`
    /// under the same pairwise key gives back: the envelope opens to the
    /// plaintext at exactly the split `decrypt_bytes` makes.
    pub fn encrypt_bytes(&mut self, data: &[u8], peer_id: &str) -> (r: Result<Vec<u8>,
        CipherError,
    >)
        requires
            old(self).wf(),
        ensures
            final(self).wf(),
            final(self).is_initialized() == old(self).is_initialized(),
            final(self).store_contents() == old(self).store_contents(),
            final(self).wrap_key_bytes() == old(self).wrap_key_bytes(),
            final(self).secret_key_bytes() == old(self).secret_key_bytes(),
            final(self).public_key_bytes() == old(self).public_key_bytes(),
            forall|id: Seq<char>| final(self).stored_key(id) == old(self).stored_key(id),
            !old(self).is_initialized() ==> (r matches Err(e) && e is NotInitialized && final(self).cache() == old(self).cache()),
            old(self).is_initialized() ==> match r {
                Ok(env) => {
                    &&& old(self).stored_key(peer_id@) matches Some(k)
                    &&& data@.len() as int <= MAX_PLAINTEXT as int
                    &&& env@.len() == data@.len() + 28
                    &&& final(self).cache() == old(self).cache().insert(
                        peer_id@,
                        old(self).stored_key(peer_id@)->Some_0,
                    )
                    &&& (exists|n: Seq<u8>|
                        {
                            &&& n.len() == 12
                            &&& env@ == n + aes_seal(
                                old(self).stored_key(peer_id@)->Some_0,
                                n,
                                data@,
                            )
                            &&& aes_open(
                                old(self).stored_key(peer_id@)->Some_0,
                                #[trigger] env@.subrange(0, 12),
                                env@.subrange(12, env@.len() as int),
                            ) == Some(data@)
                        })
                },
                Err(e) => {
                    &&& !(e is WrongPassword)
                    &&& (e is EncryptionFailed ==> data@.len() as int > MAX_PLAINTEXT as int)
                    &&& (e is PeerNotFound ==> !old(self).store_contents().contains_key(peer_id@))
                    &&& (!(e is EncryptionFailed) ==> hydration_error_kind(
                        old(self).store_contents(),
                        old(self).wrap_key_bytes(),
                        peer_id@,
                        e,
                    ))
                    &&& ((e is PeerNotFound || e is StorageError || e is InvalidKeyFormat) ==> final(self).cache() == old(self).cache())
                },
            },
            (old(self).is_initialized() && old(self).stored_key(peer_id@) is Some && data@.len()
                as int <= MAX_PLAINTEXT as int) ==> (r is Ok || (r matches Err(e)
                && e is StorageError)),
            (old(self).is_initialized() && old(self).cache().contains_key(peer_id@) && data@.len()
                as int <= MAX_PLAINTEXT as int) ==> r is Ok,
    {
        if !self.initialized {
            return Err(CipherError::NotInitialized);
        }
        let key = match self.get_peer_key(peer_id) {
            Err(e) => {
                return Err(e);
            },
            Ok(k) => k,
        };
        if (data.len() as u64) > MAX_PLAINTEXT {
            return Err(CipherError::EncryptionFailed("message too large".to_owned()));
        }
        let nonce = random_bytes(12);
        let sealed = aead_seal(key.as_slice(), nonce.as_slice(), data);
        let env = concat2(nonce.as_slice(), sealed.as_slice());
        proof {
            assert(env@.subrange(0, 12) =~= nonce@);
            assert(env@.subrange(12, env@.len() as int) =~= sealed@);
        }
        Ok(env)
    }

    /// Decrypts an envelope from a peer: splits the 12-byte nonce prefix and
    /// authenticates the remainder under the pairwise key. Any truncation or
    /// tampering of the envelope surfaces as `DecryptionFailed`.
    pub fn decrypt_bytes(&mut self, encrypted: &[u8], peer_id: &str) -> (r: Result<Vec<u8>,
        CipherError,
    >)
        requires
            old(self).wf(),
        ensures
            final(self).wf(),
            final(self).is_initialized() == old(self).is_initialized(),
            final(self).store_contents() == old(self).store_contents(),
            final(self).wrap_key_bytes() == old(self).wrap_key_bytes(),
            final(self).secret_key_bytes() == old(self).secret_key_bytes(),
            final(self).public_key_bytes() == old(self).public_key_bytes(),
            forall|id: Seq<char>| final(self).stored_key(id) == old(self).stored_key(id),
            !old(self).is_initialized() ==> (r matches Err(e) && e is NotInitialized && final(self).cache() == old(self).cache()),
            old(self).is_initialized() ==> match r {
                Ok(p) => {
                    &&& old(self).stored_key(peer_id@) matches Some(k)
                    &&& encrypted@.len() >= 12
                    &&& aes_open(
                        k,
                        encrypted@.subrange(0, 12),
                        encrypted@.subrange(12, encrypted@.len() as int),
                    ) == Some(p@)
                    &&& final(self).cache() == old(self).cache().insert(peer_id@, k)
                },
                Err(e) => {
                    &&& !(e is WrongPassword)
                    &&& !(e is EncryptionFailed)
                    &&& (e is PeerNotFound ==> !old(self).store_contents().contains_key(peer_id@))
                    &&& (!(e is DecryptionFailed) ==> hydration_error_kind(
                        old(self).store_contents(),
                        old(self).wrap_key_bytes(),
                        peer_id@,
                        e,
                    ))
                    &&& ((e is PeerNotFound || e is StorageError || e is InvalidKeyFormat) ==> final(self).cache() == old(self).cache())
                },
            },
            old(self).is_initialized() ==> (old(self).stored_key(peer_id@) matches Some(k) ==> {
                &&& (encrypted@.len() >= 12 ==> (aes_open(
                    k,
                    encrypted@.subrange(0, 12),
                    encrypted@.subrange(12, encrypted@.len() as int),
                ) matches Some(p) ==> ((r matches Ok(v) && v@ == p) || (r matches Err(e)
                    && e is StorageError))))
                &&& ((encrypted@.len() < 12 || aes_open(
                    k,
                    encrypted@.subrange(0, 12),
                    encrypted@.subrange(12, encrypted@.len() as int),
                ) is None) ==> (!(r is Ok) && (r matches Err(e) ==> (e is DecryptionFailed
                    || e is StorageError))))
            }),
            (old(self).is_initialized() && old(self).cache().contains_key(peer_id@) && !(r is Ok))
                ==> (r matches Err(e) && e is DecryptionFailed),
    {
        if !self.initialized {
            return Err(CipherError::NotInitialized);
        }
        let key = match self.get_peer_key(peer_id) {
            Err(e) => {
                return Err(e);
            },
            Ok(k) => k,
        };
        if encrypted.len() < 12 {
            return Err(CipherError::DecryptionFailed("Message too short".to_owned()));
        }
        let nonce = subvec(encrypted, 0, 12);
        let ct = subvec(encrypted, 12, encrypted.len());
        match aead_open(key.as_slice(), nonce.as_slice(), ct.as_slice()) {
            None => Err(CipherError::DecryptionFailed("authentication failed".to_owned())),
            Some(p) => Ok(p),
        }
    }
}

impl<S: Store> Cipher<S> {
    /// Encrypts a UTF-8 string for a peer and frames the envelope in padded
    /// base64url. Decoding the result gives exactly the byte envelope, which
    /// opens under the same pairwise key to the UTF-8 bytes of the message.
    pub fn encrypt_text(&mut self, plaintext: &str, peer_id: &str) -> (r: Result<String,
        CipherError,
    >)
        requires
            old(self).wf(),
        ensures
            final(self).wf(),
            final(self).is_initialized() == old(self).is_initialized(),
            final(self).store_contents() == old(self).store_contents(),
            final(self).wrap_key_bytes() == old(self).wrap_key_bytes(),
            final(self).secret_key_bytes() == old(self).secret_key_bytes(),
            final(self).public_key_bytes() == old(self).public_key_bytes(),
            forall|id: Seq<char>| final(self).stored_key(id) == old(self).stored_key(id),
            !old(self).is_initialized() ==> (r matches Err(e) && e is NotInitialized && final(self).cache() == old(self).cache()),
            old(self).is_initialized() ==> match r {
                Ok(s) => {
                    &&& old(self).stored_key(peer_id@) matches Some(k)
                    &&& encode_utf8(plaintext@).len() as int <= MAX_PLAINTEXT as int
                    &&& final(self).cache() == old(self).cache().insert(
                        peer_id@,
                        old(self).stored_key(peer_id@)->Some_0,
                    )
                    &&& (exists|env: Seq<u8>|
                        {
                            &&& s@ == #[trigger] b64url_of(env)
                            &&& b64url_parse(s@) == Some(env)
                            &&& env.len() == encode_utf8(plaintext@).len() + 28
                            &&& aes_open(
                                old(self).stored_key(peer_id@)->Some_0,
                                env.subrange(0, 12),
                                env.subrange(12, env.len() as int),
                            ) == Some(encode_utf8(plaintext@))
                        })
                },
                Err(e) => {
                    &&& !(e is WrongPassword)
                    &&& (e is EncryptionFailed ==> encode_utf8(plaintext@).len() as int
                        > MAX_PLAINTEXT as int)
                    &&& (e is PeerNotFound ==> !old(self).store_contents().contains_key(peer_id@))
                    &&& (!(e is EncryptionFailed) ==> hydration_error_kind(
                        old(self).store_contents(),
                        old(self).wrap_key_bytes(),
                        peer_id@,
                        e,
                    ))
                    &&& ((e is PeerNotFound || e is StorageError || e is InvalidKeyFormat) ==> final(self).cache() == old(self).cache())
                },
            },
            (old(self).is_initialized() && old(self).stored_key(peer_id@) is Some && encode_utf8(
                plaintext@,
            ).len() as int <= MAX_PLAINTEXT as int) ==> (r is Ok || (r matches Err(e)
                && e is StorageError)),
            (old(self).is_initialized() && old(self).cache().contains_key(peer_id@)
                && encode_utf8(plaintext@).len() as int <= MAX_PLAINTEXT as int) ==> r is Ok,
    {
        if !self.initialized {
            return Err(CipherError::NotInitialized);
        }
        let bytes = plaintext.as_bytes();
        match self.encrypt_bytes(bytes, peer_id) {
            Err(e) => Err(e),
            Ok(env) => Ok(b64_encode(env.as_slice())),
        }
    }

    /// Decrypts a base64url-framed envelope from a peer back to the UTF-8
    /// string it carries. Malformed base64, a truncated envelope, a failed
    /// authentication tag and invalid UTF-8 all surface as
    /// `DecryptionFailed`.
    pub fn decrypt_text(&mut self, encrypted_b64: &str, peer_id: &str) -> (r: Result<String,
        CipherError,
    >)
        requires
            old(self).wf(),
        ensures
            final(self).wf(),
            final(self).is_initialized() == old(self).is_initialized(),
            final(self).store_contents() == old(self).store_contents(),
            final(self).wrap_key_bytes() == old(self).wrap_key_bytes(),
            final(self).secret_key_bytes() == old(self).secret_key_bytes(),
            final(self).public_key_bytes() == old(self).public_key_bytes(),
            forall|id: Seq<char>| final(self).stored_key(id) == old(self).stored_key(id),
            !old(self).is_initialized() ==> (r matches Err(e) && e is NotInitialized && final(self).cache() == old(self).cache()),
            old(self).is_initialized() ==> match r {
                Ok(s) => {
                    &&& old(self).stored_key(peer_id@) matches Some(k)
                    &&& b64url_parse(encrypted_b64@) matches Some(env)
                    &&& env.len() >= 12
                    &&& aes_open(
                        k,
                        env.subrange(0, 12),
                        env.subrange(12, env.len() as int),
                    ) matches Some(pt)
                    &&& valid_utf8(pt)
                    &&& s@ == decode_utf8(pt)
                    &&& encode_utf8(s@) == pt
                    &&& final(self).cache() == old(self).cache().insert(peer_id@, k)
                },
                Err(e) => {
                    &&& !(e is WrongPassword)
                    &&& !(e is EncryptionFailed)
                    &&& (e is PeerNotFound ==> !old(self).store_contents().contains_key(peer_id@))
                    &&& (!(e is DecryptionFailed) ==> hydration_error_kind(
                        old(self).store_contents(),
                        old(self).wrap_key_bytes(),
                        peer_id@,
                        e,
                    ))
                    &&& ((e is PeerNotFound || e is StorageError || e is InvalidKeyFormat) ==> final(self).cache() == old(self).cache())
                },
            },
            old(self).is_initialized() ==> (old(self).stored_key(peer_id@) matches Some(k) ==> (
            b64url_parse(encrypted_b64@) matches Some(env) ==> (env.len() >= 12 ==> (aes_open(
                k,
                env.subrange(0, 12),
                env.subrange(12, env.len() as int),
            ) matches Some(pt) ==> (valid_utf8(pt) ==> ((r matches Ok(s) && s@ == decode_utf8(pt))
                || (r matches Err(e) && e is StorageError))))))),
            (old(self).is_initialized() && old(self).cache().contains_key(peer_id@) && !(r is Ok))
                ==> (r matches Err(e) && e is DecryptionFailed),
    {
        if !self.initialized {
            return Err(CipherError::NotInitialized);
        }
        let key = match self.get_peer_key(peer_id) {
            Err(e) => {
                return Err(e);
            },
            Ok(k) => k,
        };
        let packed = match b64_decode(encrypted_b64) {
            None => {
                return Err(CipherError::DecryptionFailed("Invalid base64".to_owned()));
            },
            Some(v) => v,
        };
        if packed.len() < 12 {
            return Err(CipherError::DecryptionFailed("Message too short".to_owned()));
        }
        let nonce = subvec(packed.as_slice(), 0, 12);
        let ct = subvec(packed.as_slice(), 12, packed.len());
        let pt = match aead_open(key.as_slice(), nonce.as_slice(), ct.as_slice()) {
            None => {
                return Err(CipherError::DecryptionFailed("authentication failed".to_owned()));
            },
            Some(p) => p,
        };
        match utf8_to_string(pt) {
            None => Err(CipherError::DecryptionFailed("Invalid UTF-8".to_owned())),
            Some(s) => Ok(s),
        }
    }
}

/// Law — round trip over the envelope. An envelope produced for a pairwise
/// key, `nonce || sealed`, opens back to the plaintext at exactly the split
/// the decrypt side makes: the first 12 bytes as the nonce and the remainder
/// as the ciphertext. The hypotheses are precisely what `encrypt_bytes` and
/// `encrypt_text` guarantee of every envelope they produce.
pub proof fn lemma_envelope_round_trip(k: Seq<u8>, n: Seq<u8>, m: Seq<u8>, env: Seq<u8>)
    requires
        n.len() == 12,
        env == n + aes_seal(k, n, m),
        aes_open(k, n, aes_seal(k, n, m)) == Some(m),
    ensures
        env.len() >= 12,
        env.subrange(0, 12) == n,
        env.subrange(12, env.len() as int) == aes_seal(k, n, m),
        aes_open(k, env.subrange(0, 12), env.subrange(12, env.len() as int)) == Some(m),
{
    assert(env.subrange(0, 12) =~= n);
    assert(env.subrange(12, env.len() as int) =~= aes_seal(k, n, m));
}

/// Law — round trip over the text form. A string whose UTF-8 bytes equal the
/// UTF-8 bytes of the message is the message: `decrypt_text` recovers the
/// bytes `encrypt_text` sealed, and this closes the loop to the characters.
pub proof fn lemma_text_recovery(m: Seq<char>, s: Seq<char>)
    requires
        encode_utf8(s) == encode_utf8(m),
    ensures
        s == m,
{
    vstd::utf8::encode_utf8_decode_utf8(s);
    vstd::utf8::encode_utf8_decode_utf8(m);
}

} // verus!
