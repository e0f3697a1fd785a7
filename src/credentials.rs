//! Secrets kept in the operating system's credential store, one per user name.
use vstd::prelude::*;

verus! {

/// The service under which every secret of this client is stored.
pub const KEYRING_SERVICE_NAME: &'static str = "bb-cli";

#[verifier::external_type_specification]
#[verifier::external_body]
pub struct ExEntry(keyring::Entry);

#[verifier::external_type_specification]
#[verifier::external_body]
pub struct ExKeyringError(keyring::Error);

/// Why the credential store could not do what was asked.
#[derive(Debug, Clone, PartialEq, Eq)]
pub enum AuthError {
    /// No secret is stored for the user.
    NotFound,
    /// The store failed; the text says how.
    Store(String),
}

/// Relies on `keyring::Entry::new`: the entry of `user` under `service`.
#[verifier::external_body]
fn open_entry(service: &str, user: &str) -> (r: Result<keyring::Entry, keyring::Error>) {
    keyring::Entry::new(service, user)
}

/// Relies on `keyring::Entry::set_password`: stores the secret of the entry.
#[verifier::external_body]
fn store_secret(entry: &keyring::Entry, secret: &str) -> (r: Result<(), keyring::Error>) {
    entry.set_password(secret)
}

/// Relies on `keyring::Entry::get_password`: reads the secret of the entry.
#[verifier::external_body]
fn read_secret(entry: &keyring::Entry) -> (r: Result<String, keyring::Error>) {
    entry.get_password()
}

/// Relies on `keyring::Entry::delete_credential`: removes the secret of the entry.
#[verifier::external_body]
fn remove_secret(entry: &keyring::Entry) -> (r: Result<(), keyring::Error>) {
    entry.delete_credential()
}

/// Relies on `keyring::Error`'s variants and its `Display`: `NoEntry` means
/// that nothing is stored; every other failure keeps its description.
#[verifier::external_body]
fn auth_error(e: keyring::Error) -> (r: AuthError) {
    match e {
        keyring::Error::NoEntry => AuthError::NotFound,
        other => AuthError::Store(other.to_string()),
    }
}

/// Stores `api_token` as the secret of `username`.
pub fn save_credentials(username: &str, api_token: &str) -> (r: Result<(), AuthError>) {
    let entry = match open_entry(KEYRING_SERVICE_NAME, username) {
        Ok(entry) => entry,
        Err(e) => return Err(auth_error(e)),
    };
    match store_secret(&entry, api_token) {
        Ok(()) => Ok(()),
        Err(e) => Err(auth_error(e)),
    }
}

/// The secret stored for `username`.
pub fn get_credentials(username: &str) -> (r: Result<String, AuthError>) {
    let entry = match open_entry(KEYRING_SERVICE_NAME, username) {
        Ok(entry) => entry,
        Err(e) => return Err(auth_error(e)),
    };
    match read_secret(&entry) {
        Ok(secret) => Ok(secret),
        Err(e) => Err(auth_error(e)),
    }
}

/// Removes the secret stored for `username`.
pub fn delete_credentials(username: &str) -> (r: Result<(), AuthError>) {
    let entry = match open_entry(KEYRING_SERVICE_NAME, username) {
        Ok(entry) => entry,
        Err(e) => return Err(auth_error(e)),
    };
    match remove_secret(&entry) {
        Ok(()) => Ok(()),
        Err(e) => Err(auth_error(e)),
    }
}

/// Logs `username` out by removing their secret.
pub fn check_logout(username: &str) -> (r: Result<(), AuthError>) {
    delete_credentials(username)
}

} // verus!
