use base64::engine::general_purpose::URL_SAFE;
use base64::Engine;
use nyx_core::cipher::Cipher;
use nyx_core::errors::CipherError;
use nyx_core::exercise::{
    passphrase_restart_exercise, restart_identity_exercise, round_trip_bytes_exchange,
    round_trip_exchange,
};
use nyx_core::keychain::{KeyringError, SecretManager};
use nyx_core::store::{MemoryStore, Store};
use sha2::Digest;

#[test]
fn fingerprint_has_the_documented_shape() {
    let mut c = Cipher::new(MemoryStore::new());
    c.init(None).unwrap();
    let fp = c.export_fingerprint().unwrap();
    assert_eq!(fp.chars().count(), 39);
    for (i, ch) in fp.chars().enumerate() {
        if i % 5 == 4 {
            assert_eq!(ch, ' ', "position {} should be a space", i);
        } else {
            assert!(
                ch.is_ascii_hexdigit() && !ch.is_ascii_lowercase(),
                "position {} should be uppercase hex, was {:?}",
                i,
                ch
            );
        }
    }
}

#[test]
fn fingerprint_matches_the_digest_of_the_public_bytes() {
    let mut c = Cipher::new(MemoryStore::new());
    c.init(None).unwrap();
    let pk_b64 = c.export_public_key().unwrap();
    let pk = URL_SAFE.decode(&pk_b64).unwrap();
    let digest = sha2::Sha256::digest(&pk);
    let expected: String = digest[..16]
        .chunks(2)
        .map(|pair| format!("{:02X}{:02X}", pair[0], pair[1]))
        .collect::<Vec<_>>()
        .join(" ");
    assert_eq!(c.export_fingerprint().unwrap(), expected);
}

#[test]
fn exported_public_key_is_an_uncompressed_sec1_point() {
    let mut c = Cipher::new(MemoryStore::new());
    c.init(None).unwrap();
    let pk_b64 = c.export_public_key().unwrap();
    let pk = URL_SAFE.decode(&pk_b64).unwrap();
    assert_eq!(pk.len(), 65);
    assert_eq!(pk[0], 0x04);
    assert_ne!(pk_b64.as_bytes(), &pk[..], "the export must actually be encoded");
}

#[test]
fn ciphertext_differs_from_plaintext_and_carries_a_tag() {
    let mut alice = Cipher::new(MemoryStore::new());
    let mut bob = Cipher::new(MemoryStore::new());
    alice.init(None).unwrap();
    bob.init(None).unwrap();
    let bob_pub = bob.export_public_key().unwrap();
    alice.register_peer("bob", &bob_pub).unwrap();
    let msg = b"plain bytes that must not appear in the clear";
    let env = alice.encrypt_bytes(msg, "bob").unwrap();
    assert_eq!(env.len(), msg.len() + 28);
    assert_ne!(&env[12..12 + msg.len()], &msg[..]);
}

#[test]
fn operations_before_init_report_not_initialized() {
    let mut c = Cipher::new(MemoryStore::new());
    assert!(!c.is_ready());
    assert!(matches!(c.export_public_key(), Err(CipherError::NotInitialized)));
    assert!(matches!(c.export_fingerprint(), Err(CipherError::NotInitialized)));
    assert!(matches!(c.encrypt_text("x", "p"), Err(CipherError::NotInitialized)));
    assert!(matches!(c.decrypt_text("x", "p"), Err(CipherError::NotInitialized)));
    assert!(matches!(c.encrypt_bytes(b"x", "p"), Err(CipherError::NotInitialized)));
    assert!(matches!(c.decrypt_bytes(b"x", "p"), Err(CipherError::NotInitialized)));
    assert!(matches!(c.register_peer("p", "x"), Err(CipherError::NotInitialized)));
    assert!(matches!(c.remove_peer("p"), Err(CipherError::NotInitialized)));
    assert!(matches!(c.has_peer("p"), Err(CipherError::NotInitialized)));
}

#[test]
fn registering_a_malformed_key_is_rejected() {
    let mut c = Cipher::new(MemoryStore::new());
    c.init(None).unwrap();
    assert!(matches!(
        c.register_peer("p", "!!!not base64!!!"),
        Err(CipherError::InvalidKeyFormat)
    ));
    let not_a_point = URL_SAFE.encode([0x05u8; 65]);
    assert!(matches!(
        c.register_peer("p", &not_a_point),
        Err(CipherError::InvalidKeyFormat)
    ));
    assert_eq!(c.has_peer("p").unwrap(), false);
}

#[test]
fn reserved_ids_are_rejected_as_peer_ids() {
    let mut a = Cipher::new(MemoryStore::new());
    let mut b = Cipher::new(MemoryStore::new());
    a.init(None).unwrap();
    b.init(None).unwrap();
    let pk = b.export_public_key().unwrap();
    for id in ["identity", "salt", "wrapping-key"] {
        assert!(matches!(
            a.register_peer(id, &pk),
            Err(CipherError::InvalidKeyFormat)
        ));
    }
}

#[test]
fn malformed_base64_envelope_is_rejected() {
    let mut alice = Cipher::new(MemoryStore::new());
    let mut bob = Cipher::new(MemoryStore::new());
    alice.init(None).unwrap();
    bob.init(None).unwrap();
    let bob_pub = bob.export_public_key().unwrap();
    alice.register_peer("bob", &bob_pub).unwrap();
    match alice.decrypt_text("@@@@", "bob") {
        Err(CipherError::DecryptionFailed(_)) => {},
        other => panic!("expected DecryptionFailed, got {:?}", other),
    }
}

#[test]
fn non_utf8_plaintext_is_rejected_by_the_text_form() {
    let mut alice = Cipher::new(MemoryStore::new());
    let mut bob = Cipher::new(MemoryStore::new());
    alice.init(None).unwrap();
    bob.init(None).unwrap();
    let alice_pub = alice.export_public_key().unwrap();
    let bob_pub = bob.export_public_key().unwrap();
    alice.register_peer("bob", &bob_pub).unwrap();
    bob.register_peer("alice", &alice_pub).unwrap();
    let env = alice.encrypt_bytes(&[0xff, 0xfe, 0x80], "bob").unwrap();
    let framed = URL_SAFE.encode(&env);
    match bob.decrypt_text(&framed, "alice") {
        Err(CipherError::DecryptionFailed(_)) => {},
        other => panic!("expected DecryptionFailed, got {:?}", other),
    }
}

#[test]
fn garbage_peer_record_reports_a_storage_error() {
    let mut store = MemoryStore::new();
    store.put("mallory", b"not a record".to_vec()).unwrap();
    let mut c = Cipher::new(store);
    c.init(None).unwrap();
    match c.encrypt_bytes(b"x", "mallory") {
        Err(CipherError::StorageError(_)) => {},
        other => panic!("expected StorageError, got {:?}", other),
    }
}

#[test]
fn corrupt_wrapping_key_blob_is_rejected_on_reopen() {
    let mut store = MemoryStore::new();
    store.put("wrapping-key", vec![0u8; 16]).unwrap();
    let mut c = Cipher::new(store);
    match c.init(None) {
        Err(CipherError::InvalidKeyFormat) => {},
        other => panic!("expected InvalidKeyFormat, got {:?}", other),
    }
}

#[test]
fn basic_mode_reopen_keeps_the_identity() {
    let mut first = Cipher::new(MemoryStore::new());
    first.init(None).unwrap();
    let pk = first.export_public_key().unwrap();
    let store = first.into_store();
    let mut second = Cipher::new(store);
    second.init(None).unwrap();
    assert_eq!(second.export_public_key().unwrap(), pk);
}

#[test]
fn memory_store_basic_operations() {
    let mut s = MemoryStore::new();
    s.setup().unwrap();
    assert_eq!(s.has("k").unwrap(), false);
    assert_eq!(s.get("k").unwrap(), None);
    s.put("k", vec![1, 2, 3]).unwrap();
    assert_eq!(s.has("k").unwrap(), true);
    assert_eq!(s.get("k").unwrap(), Some(vec![1, 2, 3]));
    s.put("k", vec![9]).unwrap();
    assert_eq!(s.get("k").unwrap(), Some(vec![9]));
    s.delete("k").unwrap();
    assert_eq!(s.has("k").unwrap(), false);
    s.delete("k").unwrap();
}

#[test]
fn secret_manager_reports_credential_store_outcomes() {
    let sm = SecretManager::new("nyx-test-service", "nyx-test-user");
    // Reading a slot nothing was stored in surfaces the store's own message.
    match sm.get_secret() {
        Err(KeyringError::OperationFailed(m)) => assert!(!m.is_empty()),
        Ok(s) => panic!("unexpected stored secret {:?}", s),
    }
    // Writing and deleting go through the ambient credential store; either
    // they are accepted or the failure carries the store's message.
    match sm.set_secret("parked secret") {
        Ok(()) => {},
        Err(KeyringError::OperationFailed(m)) => assert!(!m.is_empty()),
    }
    match sm.delete_secret() {
        Ok(()) => {},
        Err(KeyringError::OperationFailed(m)) => assert!(!m.is_empty()),
    }
}

#[test]
fn persisted_records_use_the_json_reference_form() {
    let mut alice = Cipher::new(MemoryStore::new());
    let mut bob = Cipher::new(MemoryStore::new());
    alice.init(None).unwrap();
    bob.init(None).unwrap();
    let bob_pub = bob.export_public_key().unwrap();
    alice.register_peer("bob", &bob_pub).unwrap();

    let identity = alice.store().get("identity").unwrap().expect("identity record");
    let identity = String::from_utf8(identity).expect("textual record");
    assert!(identity.starts_with("{\"public_key\":["));
    assert!(identity.contains(",\"encrypted_private_key\":["));
    assert!(identity.contains(",\"nonce\":["));
    assert!(identity.ends_with("]}"));

    let peer = alice.store().get("bob").unwrap().expect("peer record");
    let peer = String::from_utf8(peer).expect("textual record");
    assert!(peer.starts_with("{\"encrypted_key\":["));
    assert!(peer.contains(",\"nonce\":["));
    assert!(peer.ends_with("]}"));
}

#[test]
fn verified_round_trip_exchange_runs() {
    let recovered = round_trip_exchange("a message for the other side").expect("exchange");
    assert_eq!(recovered, "a message for the other side");
}

#[test]
fn verified_restart_exercise_runs() {
    let (before, after) = restart_identity_exercise().expect("restart");
    assert_eq!(before, after);
}

#[test]
fn verified_passphrase_restart_exercise_runs() {
    let (before, after) = passphrase_restart_exercise("s3cret").expect("restart");
    assert_eq!(before, after);
}

#[test]
fn verified_byte_round_trip_exchange_runs() {
    let payload: Vec<u8> = (0u16..=255).map(|b| b as u8).collect();
    let recovered = round_trip_bytes_exchange(&payload).expect("exchange");
    assert_eq!(recovered, payload);
}
