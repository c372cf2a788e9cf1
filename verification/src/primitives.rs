//! Trusted boundary to the cryptographic primitives.
//!
//! Every function here is an `external_body` wrapper around one primitive
//! operation of an outside crate, from plain byte values to plain byte
//! values; its body holds that operation and the conversions its arguments
//! and result need, nothing else. The uninterpreted spec functions give
//! names to the results of the deterministic primitives; the contracts state
//! only what the crates' sources show.

use vstd::prelude::*;

use aes_gcm::aead::rand_core::RngCore;
use aes_gcm::aead::{Aead, KeyInit, Nonce, OsRng};
use aes_gcm::Aes256Gcm;
use base64::engine::general_purpose::URL_SAFE;
use base64::Engine;
use p256::elliptic_curve::ecdh::diffie_hellman;
use pbkdf2::pbkdf2_hmac;
use sha2::Digest;
use sha2::Sha256;
use zeroize::Zeroize;

verus! {

use vstd::utf8::valid_utf8;
use vstd::utf8::decode_utf8;
use vstd::utf8::encode_utf8;

/// The AES-256-GCM ciphertext-with-tag for a 32-byte key, 12-byte nonce and
/// plaintext, with empty associated data.
pub uninterp spec fn aes_seal(key: Seq<u8>, nonce: Seq<u8>, pt: Seq<u8>) -> Seq<u8>;

/// The result of AES-256-GCM decryption: the plaintext when the tag of the
/// ciphertext verifies under the key and nonce, `None` otherwise.
pub uninterp spec fn aes_open(key: Seq<u8>, nonce: Seq<u8>, ct: Seq<u8>) -> Option<Seq<u8>>;

/// The SHA-256 digest of a byte sequence.
pub uninterp spec fn sha256_of(data: Seq<u8>) -> Seq<u8>;

/// The 32-byte PBKDF2-HMAC-SHA-256 output for a password, salt and round count.
pub uninterp spec fn pbkdf2_sha256(password: Seq<u8>, salt: Seq<u8>, rounds: u32) -> Seq<u8>;

/// The base64url (padded alphabet) encoding of a byte sequence.
pub uninterp spec fn b64url_of(data: Seq<u8>) -> Seq<char>;

/// The result of base64url decoding: the bytes, or `None` on malformed input.
pub uninterp spec fn b64url_parse(text: Seq<char>) -> Option<Seq<u8>>;

/// Whether 32 bytes are a valid P-256 secret scalar (big-endian, nonzero,
/// below the group order).
pub uninterp spec fn p256_scalar_valid(scalar: Seq<u8>) -> bool;

/// Whether a byte sequence is a valid SEC1 encoding of a P-256 public point.
pub uninterp spec fn p256_point_valid(sec1: Seq<u8>) -> bool;

/// The uncompressed SEC1 encoding of the public point of a secret scalar.
pub uninterp spec fn p256_pub_of(scalar: Seq<u8>) -> Seq<u8>;

/// The X coordinate, as 32 raw bytes, of the Diffie-Hellman product of a
/// secret scalar and a SEC1-encoded peer point.
pub uninterp spec fn ecdh_x(scalar: Seq<u8>, peer_sec1: Seq<u8>) -> Seq<u8>;

/// Relies on aes_gcm's `Aes256Gcm` (`new_from_slice`, `Aead::encrypt`):
/// encryption with empty associated data appends a 16-byte tag and, per the
/// AEAD contract, decrypting the result under the same key and nonce yields
/// the plaintext again. Encryption cannot fail for plaintexts within the GCM
/// length bound, which the `requires` enforces.
#[verifier::external_body]
pub(crate) fn aead_seal(key: &[u8], nonce: &[u8], pt: &[u8]) -> (r: Vec<u8>)
    requires
        key@.len() == 32,
        nonce@.len() == 12,
        pt@.len() <= 0x1000000000,
    ensures
        r@ == aes_seal(key@, nonce@, pt@),
        r@.len() == pt@.len() + 16,
        aes_open(key@, nonce@, r@) == Some(pt@),
{
    let cipher = Aes256Gcm::new_from_slice(key).unwrap();
    let n = Nonce::<Aes256Gcm>::from_slice(nonce);
    cipher.encrypt(n, pt).unwrap()
}

/// Relies on aes_gcm's `Aead::decrypt`: it returns the plaintext, 16 bytes
/// shorter than its input, exactly when the authentication tag verifies.
#[verifier::external_body]
pub(crate) fn aead_open(key: &[u8], nonce: &[u8], ct: &[u8]) -> (r: Option<Vec<u8>>)
    requires
        key@.len() == 32,
        nonce@.len() == 12,
    ensures
        match r {
            Some(p) => aes_open(key@, nonce@, ct@) == Some(p@) && p@.len() + 16 == ct@.len(),
            None => aes_open(key@, nonce@, ct@) is None,
        },
{
    let cipher = Aes256Gcm::new_from_slice(key).unwrap();
    let n = Nonce::<Aes256Gcm>::from_slice(nonce);
    match cipher.decrypt(n, ct) {
        Ok(p) => Some(p),
        Err(_) => None,
    }
}

/// Relies on sha2's `Sha256::digest`: a 32-byte digest depending on the input
/// bytes alone.
#[verifier::external_body]
pub(crate) fn sha256(data: &[u8]) -> (r: Vec<u8>)
    ensures
        r@ == sha256_of(data@),
        r@.len() == 32,
{
    Sha256::digest(data).to_vec()
}

/// Relies on pbkdf2's `pbkdf2_hmac::<Sha256>`: it fills the output buffer,
/// here 32 bytes, from the password, salt and round count alone.
#[verifier::external_body]
pub(crate) fn pbkdf2_derive(password: &[u8], salt: &[u8], rounds: u32) -> (r: Vec<u8>)
    ensures
        r@ == pbkdf2_sha256(password@, salt@, rounds),
        r@.len() == 32,
{
    let mut out = [0u8; 32];
    pbkdf2_hmac::<Sha256>(password, salt, rounds, &mut out);
    out.to_vec()
}

/// Relies on rand_core's `OsRng::fill_bytes` (re-exported by aes_gcm): fills
/// the buffer from the system's cryptographic random source. Nothing can be
/// promised of the drawn values.
#[verifier::external_body]
pub(crate) fn random_bytes(n: usize) -> (r: Vec<u8>)
    ensures
        r@.len() == n,
{
    let mut buf = vec![0u8; n];
    OsRng.fill_bytes(&mut buf);
    buf
}

/// Relies on base64's `Engine::encode` with the padded URL-safe alphabet; per
/// that crate's documentation, `Engine::decode` inverts it. The bound on the
/// input keeps the encoded length within `usize`, where `encode` cannot
/// fail.
#[verifier::external_body]
pub(crate) fn b64_encode(data: &[u8]) -> (r: String)
    requires
        data@.len() <= 0x2000000000,
    ensures
        r@ == b64url_of(data@),
        b64url_parse(r@) == Some(data@),
{
    URL_SAFE.encode(data)
}

/// Relies on base64's `Engine::decode` with the padded URL-safe alphabet: the
/// decoded bytes for well-formed input, an error otherwise.
#[verifier::external_body]
pub(crate) fn b64_decode(text: &str) -> (r: Option<Vec<u8>>)
    ensures
        match r {
            Some(v) => b64url_parse(text@) == Some(v@),
            None => b64url_parse(text@) is None,
        },
{
    match URL_SAFE.decode(text) {
        Ok(v) => Some(v),
        Err(_) => None,
    }
}

/// Relies on p256's `SecretKey::random` and `SecretKey::to_bytes`: a freshly
/// drawn key serializes to 32 scalar bytes that `SecretKey::from_bytes`
/// accepts again. Nothing is promised of the drawn value itself.
#[verifier::external_body]
pub(crate) fn p256_generate_scalar() -> (r: Vec<u8>)
    ensures
        r@.len() == 32,
        p256_scalar_valid(r@),
{
    let sk = p256::SecretKey::random(&mut OsRng);
    sk.to_bytes().to_vec()
}

/// Relies on p256's `SecretKey::from_bytes`, `SecretKey::public_key` and
/// `PublicKey::to_sec1_bytes`: the public point of a scalar, in uncompressed
/// SEC1 form (P-256 does not compress points), which `from_sec1_bytes`
/// accepts again.
#[verifier::external_body]
pub(crate) fn p256_public_of_scalar(scalar: &[u8]) -> (r: Vec<u8>)
    requires
        scalar@.len() == 32,
        p256_scalar_valid(scalar@),
    ensures
        r@ == p256_pub_of(scalar@),
        p256_point_valid(r@),
        r@.len() == 65,
{
    let sk = p256::SecretKey::from_bytes(scalar.into()).unwrap();
    sk.public_key().to_sec1_bytes().to_vec()
}

/// Relies on p256's `PublicKey::from_sec1_bytes`: whether the bytes decode to
/// a public point.
#[verifier::external_body]
pub(crate) fn p256_check_point(sec1: &[u8]) -> (r: bool)
    ensures
        r == p256_point_valid(sec1@),
{
    p256::PublicKey::from_sec1_bytes(sec1).is_ok()
}

/// Relies on elliptic_curve's `ecdh::diffie_hellman` (via p256) and
/// `SharedSecret::raw_secret_bytes`: the X coordinate of the product of the
/// scalar and the peer point, 32 bytes. Multiplication in the P-256 group is
/// commutative in the exponent, so when the peer point is itself the public
/// point of a scalar, the two parties' products coincide.
#[verifier::external_body]
pub(crate) fn p256_dh(scalar: &[u8], peer_sec1: &[u8]) -> (r: Vec<u8>)
    requires
        scalar@.len() == 32,
        p256_scalar_valid(scalar@),
        p256_point_valid(peer_sec1@),
    ensures
        r@ == ecdh_x(scalar@, peer_sec1@),
        r@.len() == 32,
        forall|other: Seq<u8>|
            p256_scalar_valid(other) && peer_sec1@ == #[trigger] p256_pub_of(other)
                ==> r@ == ecdh_x(other, p256_pub_of(scalar@)),
{
    let sk = p256::SecretKey::from_bytes(scalar.into()).unwrap();
    let pk = p256::PublicKey::from_sec1_bytes(peer_sec1).unwrap();
    let shared = diffie_hellman(sk.to_nonzero_scalar(), pk.as_affine());
    shared.raw_secret_bytes().to_vec()
}

/// Relies on std's `String::from_utf8`: it succeeds exactly on valid UTF-8
/// and then returns the string with those bytes.
#[verifier::external_body]
pub(crate) fn utf8_to_string(bytes: Vec<u8>) -> (r: Option<String>)
    ensures
        match r {
            Some(s) => valid_utf8(bytes@) && s@ == decode_utf8(bytes@) && encode_utf8(s@)
                == bytes@,
            None => !valid_utf8(bytes@),
        },
{
    match String::from_utf8(bytes) {
        Ok(s) => Some(s),
        Err(_) => None,
    }
}

/// Relies on zeroize's `Zeroize for Vec<u8>`: it overwrites the buffer's
/// whole capacity with zeroes and leaves it empty.
#[verifier::external_body]
pub(crate) fn wipe(buf: &mut Vec<u8>)
    ensures
        final(buf)@.len() == 0,
{
    buf.zeroize();
}

/// Relies on p256's `SecretKey::from_bytes`: whether 32 bytes are a valid
/// secret scalar.
#[verifier::external_body]
pub(crate) fn p256_check_scalar(b: &[u8]) -> (r: bool)
    requires
        b@.len() == 32,
    ensures
        r == p256_scalar_valid(b@),
{
    p256::SecretKey::from_bytes(b.into()).is_ok()
}

} // verus!
