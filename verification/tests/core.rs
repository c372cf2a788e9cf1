use nyx_core::cipher::Cipher;
use nyx_core::errors::CipherError;
use nyx_core::store::{MemoryStore, Store};

fn pair() -> (Cipher<MemoryStore>, Cipher<MemoryStore>) {
    let mut alice = Cipher::new(MemoryStore::new());
    let mut bob = Cipher::new(MemoryStore::new());
    alice.init(None).unwrap();
    bob.init(None).unwrap();
    let alice_pub = alice.export_public_key().unwrap();
    let bob_pub = bob.export_public_key().unwrap();
    alice.register_peer("bob", &bob_pub).unwrap();
    bob.register_peer("alice", &alice_pub).unwrap();
    (alice, bob)
}

fn pseudo_random(len: usize) -> Vec<u8> {
    let mut state: u64 = 0x9e3779b97f4a7c15;
    let mut out = Vec::with_capacity(len);
    for _ in 0..len {
        state ^= state << 13;
        state ^= state >> 7;
        state ^= state << 17;
        out.push((state >> 32) as u8);
    }
    out
}

#[test]
fn text_round_trip_between_two_instances() {
    let (mut alice, mut bob) = pair();
    let c = alice.encrypt_text("Hello, Bob!", "bob").unwrap();
    let m = bob.decrypt_text(&c, "alice").unwrap();
    assert_eq!(m, "Hello, Bob!");
}

#[test]
fn text_round_trip_unicode_and_empty() {
    let (mut alice, mut bob) = pair();
    for msg in ["", "caf\u{e9} \u{1f512} \u{4f60}\u{597d}", "line\nbreak\tand spaces"] {
        let c = alice.encrypt_text(msg, "bob").unwrap();
        assert_eq!(bob.decrypt_text(&c, "alice").unwrap(), msg);
    }
}

#[test]
fn bytes_round_trip_one_mebibyte() {
    let (mut alice, mut bob) = pair();
    let blob = pseudo_random(1 << 20);
    let enc = alice.encrypt_bytes(&blob, "bob").unwrap();
    assert_eq!(enc.len(), blob.len() + 28);
    let dec = bob.decrypt_bytes(&enc, "alice").unwrap();
    assert_eq!(dec, blob);
}

#[test]
fn bytes_round_trip_empty() {
    let (mut alice, mut bob) = pair();
    let enc = alice.encrypt_bytes(&[], "bob").unwrap();
    assert_eq!(enc.len(), 28);
    let dec = bob.decrypt_bytes(&enc, "alice").unwrap();
    assert!(dec.is_empty());
}

#[test]
fn nonce_prefixes_never_repeat() {
    let (mut alice, _bob) = pair();
    let mut prefixes: Vec<Vec<u8>> = Vec::new();
    for _ in 0..1000 {
        let env = alice.encrypt_bytes(b"same message", "bob").unwrap();
        prefixes.push(env[..12].to_vec());
    }
    prefixes.sort();
    for w in prefixes.windows(2) {
        assert_ne!(w[0], w[1], "two envelopes shared a 12-byte nonce prefix");
    }
}

#[test]
fn registration_is_idempotent_and_keeps_the_record() {
    let (mut alice, bob) = pair();
    let bob_pub = bob.export_public_key().unwrap();
    let first = alice.store().get("bob").unwrap().expect("record must exist");
    alice.register_peer("bob", &bob_pub).unwrap();
    let second = alice.store().get("bob").unwrap().expect("record must exist");
    assert_eq!(first, second, "second registration rewrote the persisted blob");
}

#[test]
fn init_is_idempotent() {
    let mut c = Cipher::new(MemoryStore::new());
    c.init(None).unwrap();
    let pk1 = c.export_public_key().unwrap();
    c.init(None).unwrap();
    let pk2 = c.export_public_key().unwrap();
    assert_eq!(pk1, pk2);
}

#[test]
fn encryption_survives_cache_clear() {
    let (mut alice, mut bob) = pair();
    let c1 = alice.encrypt_text("before", "bob").unwrap();
    alice.clear_cache();
    let c2 = alice.encrypt_text("after", "bob").unwrap();
    assert_eq!(bob.decrypt_text(&c1, "alice").unwrap(), "before");
    assert_eq!(bob.decrypt_text(&c2, "alice").unwrap(), "after");
}

#[test]
fn wrong_passphrase_on_reopened_store_is_rejected() {
    let mut first = Cipher::new(MemoryStore::new());
    first.init(Some("s3cret")).unwrap();
    let store = first.into_store();
    let mut second = Cipher::new(store);
    match second.init(Some("wrong")) {
        Err(CipherError::WrongPassword) => {},
        other => panic!("expected WrongPassword, got {:?}", other),
    }
    assert!(!second.is_ready());
}

#[test]
fn correct_passphrase_on_reopened_store_is_accepted() {
    let mut first = Cipher::new(MemoryStore::new());
    first.init(Some("s3cret")).unwrap();
    let pk1 = first.export_public_key().unwrap();
    let store = first.into_store();
    let mut second = Cipher::new(store);
    second.init(Some("s3cret")).unwrap();
    assert_eq!(second.export_public_key().unwrap(), pk1);
}

#[test]
fn flipping_the_last_byte_is_detected() {
    let (mut alice, mut bob) = pair();
    let mut env = alice.encrypt_bytes(b"tagged", "bob").unwrap();
    let last = env.len() - 1;
    env[last] ^= 0x01;
    match bob.decrypt_bytes(&env, "alice") {
        Err(CipherError::DecryptionFailed(_)) => {},
        other => panic!("expected DecryptionFailed, got {:?}", other),
    }
}

#[test]
fn flipping_any_single_bit_is_detected() {
    let (mut alice, mut bob) = pair();
    let env = alice.encrypt_bytes(b"bit", "bob").unwrap();
    for byte in 0..env.len() {
        for bit in 0..8 {
            let mut tampered = env.clone();
            tampered[byte] ^= 1u8 << bit;
            match bob.decrypt_bytes(&tampered, "alice") {
                Err(CipherError::DecryptionFailed(_)) => {},
                other => panic!(
                    "bit {} of byte {} not detected: {:?}",
                    bit, byte, other
                ),
            }
        }
    }
}

#[test]
fn truncated_envelope_is_rejected() {
    let (mut alice, mut bob) = pair();
    let env = alice.encrypt_bytes(b"short", "bob").unwrap();
    match bob.decrypt_bytes(&env[..11], "alice") {
        Err(CipherError::DecryptionFailed(_)) => {},
        other => panic!("expected DecryptionFailed, got {:?}", other),
    }
}

#[test]
fn peer_removal_forgets_the_peer() {
    let (mut alice, _bob) = pair();
    alice.remove_peer("bob").unwrap();
    assert_eq!(alice.has_peer("bob").unwrap(), false);
    match alice.encrypt_text("hi", "bob") {
        Err(CipherError::PeerNotFound(_)) => {},
        other => panic!("expected PeerNotFound, got {:?}", other),
    }
    match alice.decrypt_bytes(&[0u8; 40], "bob") {
        Err(CipherError::PeerNotFound(_)) => {},
        other => panic!("expected PeerNotFound, got {:?}", other),
    }
    alice.remove_peer("bob").unwrap();
}

#[test]
fn has_peer_consults_persistence_not_the_cache() {
    let (mut alice, _bob) = pair();
    assert_eq!(alice.has_peer("bob").unwrap(), true);
    assert_eq!(alice.has_peer("alice").unwrap(), false);
    alice.clear_cache();
    assert_eq!(alice.has_peer("bob").unwrap(), true);
}
