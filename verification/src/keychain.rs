//! Parking a secret in the operating system's credential store, addressed by
//! a service and user name.

use vstd::prelude::*;

verus! {

/// The error a credential-store operation reports, carrying the store's own
/// message.
#[derive(Debug)]
pub enum KeyringError {
    OperationFailed(String),
}

/// keyring's credential-store handle, opaque to verification.
#[verifier::external_type_specification]
#[verifier::external_body]
pub struct ExEntry(keyring::Entry);

/// Relies on keyring's `Entry::new`: builds a handle to the platform
/// credential store for a service and user. Whether it succeeds depends on
/// the environment, so nothing is promised of the outcome.
#[verifier::external_body]
fn entry_new(service: &str, user: &str) -> (r: Result<keyring::Entry, String>) {
    match keyring::Entry::new(service, user) {
        Ok(e) => Ok(e),
        Err(e) => Err(e.to_string()),
    }
}

/// Relies on keyring's `Entry::set_password`: stores the secret in the
/// platform credential store.
#[verifier::external_body]
fn entry_set_password(entry: &keyring::Entry, secret: &str) -> (r: Result<(), String>) {
    match entry.set_password(secret) {
        Ok(_) => Ok(()),
        Err(e) => Err(e.to_string()),
    }
}

/// Relies on keyring's `Entry::get_password`: retrieves the stored secret.
#[verifier::external_body]
fn entry_get_password(entry: &keyring::Entry) -> (r: Result<String, String>) {
    match entry.get_password() {
        Ok(s) => Ok(s),
        Err(e) => Err(e.to_string()),
    }
}

/// Relies on keyring's `Entry::delete_credential`: removes the stored
/// secret.
#[verifier::external_body]
fn entry_delete(entry: &keyring::Entry) -> (r: Result<(), String>) {
    match entry.delete_credential() {
        Ok(_) => Ok(()),
        Err(e) => Err(e.to_string()),
    }
}

/// A handle on one credential-store slot, named by service and user.
pub struct SecretManager {
    service: String,
    user: String,
}

impl SecretManager {
    /// The service name this manager addresses.
    pub closed spec fn service_id(self) -> Seq<char> {
        self.service@
    }

    /// The user name this manager addresses.
    pub closed spec fn user_id(self) -> Seq<char> {
        self.user@
    }

    pub fn new(service: &str, user: &str) -> (r: SecretManager)
        ensures
            r.service_id() == service@,
            r.user_id() == user@,
    {
        SecretManager { service: service.to_owned(), user: user.to_owned() }
    }

    /// Stores the secret; a store failure is reported with its message.
    pub fn set_secret(&self, secret: &str) -> (r: Result<(), KeyringError>)
        ensures
            r matches Err(e) ==> e is OperationFailed,
    {
        let entry = match entry_new(self.service.as_str(), self.user.as_str()) {
            Err(m) => {
                return Err(KeyringError::OperationFailed(m));
            },
            Ok(e) => e,
        };
        match entry_set_password(&entry, secret) {
            Err(m) => Err(KeyringError::OperationFailed(m)),
            Ok(_) => Ok(()),
        }
    }

    /// Retrieves the stored secret.
    pub fn get_secret(&self) -> (r: Result<String, KeyringError>)
        ensures
            r matches Err(e) ==> e is OperationFailed,
    {
        let entry = match entry_new(self.service.as_str(), self.user.as_str()) {
            Err(m) => {
                return Err(KeyringError::OperationFailed(m));
            },
            Ok(e) => e,
        };
        match entry_get_password(&entry) {
            Err(m) => Err(KeyringError::OperationFailed(m)),
            Ok(s) => Ok(s),
        }
    }

    /// Removes the stored secret.
    pub fn delete_secret(&self) -> (r: Result<(), KeyringError>)
        ensures
            r matches Err(e) ==> e is OperationFailed,
    {
        let entry = match entry_new(self.service.as_str(), self.user.as_str()) {
            Err(m) => {
                return Err(KeyringError::OperationFailed(m));
            },
            Ok(e) => e,
        };
        match entry_delete(&entry) {
            Err(m) => Err(KeyringError::OperationFailed(m)),
            Ok(_) => Ok(()),
        }
    }
}

} // verus!
