//! A machine-checked witness of the round-trip law, end to end.
//!
//! Verification of this function rests on the public contracts alone: two
//! fresh cores that register each other's exported public keys derive the
//! same pairwise key (Diffie-Hellman symmetry, as `register_peer` states
//! it), and a text envelope produced by one is decrypted by the other to
//! exactly the original message.

use vstd::prelude::*;

verus! {

use crate::cipher::{lemma_text_recovery, Cipher};
use crate::store::MemoryStore;

/// Runs one full exchange and proves the recovered text is the message
/// sent. Every step that depends on the environment (the store, the random
/// source) may fail and is simply abandoned; whenever the exchange
/// completes, equality is proved, not tested.
pub fn round_trip_exchange(message: &str) -> (r: Option<String>)
    ensures
        r matches Some(m) ==> m@ == message@,
{
    proof {
        reveal_strlit("a");
        reveal_strlit("b");
        reveal_strlit("salt");
        reveal_strlit("identity");
        reveal_strlit("wrapping-key");
        assert("a"@.len() == 1 && "b"@.len() == 1 && "salt"@.len() == 4 && "identity"@.len() == 8
            && "wrapping-key"@.len() == 12);
        assert("a"@[0] == 'a' && "b"@[0] == 'b' && "salt"@[0] == 's');
    }
    let mut alice = Cipher::new(MemoryStore::new());
    let mut bob = Cipher::new(MemoryStore::new());
    if alice.init(None).is_err() {
        return None;
    }
    if bob.init(None).is_err() {
        return None;
    }
    let alice_pub = match alice.export_public_key() {
        Ok(s) => s,
        Err(_) => {
            return None;
        },
    };
    let bob_pub = match bob.export_public_key() {
        Ok(s) => s,
        Err(_) => {
            return None;
        },
    };
    if alice.register_peer("b", bob_pub.as_str()).is_err() {
        return None;
    }
    if bob.register_peer("a", alice_pub.as_str()).is_err() {
        return None;
    }
    let sealed = match alice.encrypt_text(message, "b") {
        Ok(c) => c,
        Err(_) => {
            return None;
        },
    };
    match bob.decrypt_text(sealed.as_str(), "a") {
        Ok(recovered) => {
            proof {
                vstd::utf8::encode_utf8_valid_utf8(message@);
                lemma_text_recovery(message@, recovered@);
            }
            Some(recovered)
        },
        Err(_) => None,
    }
}

/// A machine-checked witness of identity persistence. A core initialized in
/// basic mode persists its wrapping key and its wrapped identity; a second
/// core opened over the same store presents the same public identity.
/// Whenever both initializations complete, the equality is proved from the
/// contracts, not tested.
pub fn restart_identity_exercise() -> (r: Option<(String, String)>)
    ensures
        r matches Some(exported) ==> exported.0@ == exported.1@,
{
    let mut first = Cipher::new(MemoryStore::new());
    if first.init(None).is_err() {
        return None;
    }
    let before = match first.export_public_key() {
        Ok(s) => s,
        Err(_) => {
            return None;
        },
    };
    let store = first.into_store();
    let mut second = Cipher::new(store);
    if second.init(None).is_err() {
        return None;
    }
    let after = match second.export_public_key() {
        Ok(s) => s,
        Err(_) => {
            return None;
        },
    };
    Some((before, after))
}

/// The passphrase-mode counterpart: the salt persists, the wrapping key is
/// stretched from the passphrase against it, and reopening the store with
/// the same passphrase presents the same public identity.
pub fn passphrase_restart_exercise(passphrase: &str) -> (r: Option<(String, String)>)
    ensures
        r matches Some(exported) ==> exported.0@ == exported.1@,
{
    let mut first = Cipher::new(MemoryStore::new());
    if first.init(Some(passphrase)).is_err() {
        return None;
    }
    let before = match first.export_public_key() {
        Ok(s) => s,
        Err(_) => {
            return None;
        },
    };
    let store = first.into_store();
    let mut second = Cipher::new(store);
    if second.init(Some(passphrase)).is_err() {
        return None;
    }
    let after = match second.export_public_key() {
        Ok(s) => s,
        Err(_) => {
            return None;
        },
    };
    Some((before, after))
}

/// The byte-level counterpart of `round_trip_exchange`: whenever the
/// exchange completes, the decrypted bytes are proved equal to the message
/// sent.
pub fn round_trip_bytes_exchange(message: &[u8]) -> (r: Option<Vec<u8>>)
    ensures
        r matches Some(m) ==> m@ == message@,
{
    proof {
        reveal_strlit("a");
        reveal_strlit("b");
        reveal_strlit("salt");
        reveal_strlit("identity");
        reveal_strlit("wrapping-key");
        assert("a"@.len() == 1 && "b"@.len() == 1 && "salt"@.len() == 4 && "identity"@.len() == 8
            && "wrapping-key"@.len() == 12);
        assert("a"@[0] == 'a' && "b"@[0] == 'b' && "salt"@[0] == 's');
    }
    let mut alice = Cipher::new(MemoryStore::new());
    let mut bob = Cipher::new(MemoryStore::new());
    if alice.init(None).is_err() {
        return None;
    }
    if bob.init(None).is_err() {
        return None;
    }
    let alice_pub = match alice.export_public_key() {
        Ok(s) => s,
        Err(_) => {
            return None;
        },
    };
    let bob_pub = match bob.export_public_key() {
        Ok(s) => s,
        Err(_) => {
            return None;
        },
    };
    if alice.register_peer("b", bob_pub.as_str()).is_err() {
        return None;
    }
    if bob.register_peer("a", alice_pub.as_str()).is_err() {
        return None;
    }
    let sealed = match alice.encrypt_bytes(message, "b") {
        Ok(c) => c,
        Err(_) => {
            return None;
        },
    };
    match bob.decrypt_bytes(sealed.as_slice(), "a") {
        Ok(recovered) => Some(recovered),
        Err(_) => None,
    }
}

} // verus!
