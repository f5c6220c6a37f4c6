//! Items of the OS keyring, through `keyring`. An entry is kept together
//! with the service and user it was made for.

use keyring::Entry;
use keyring::Error as KeyringError;
use vstd::prelude::*;

verus! {

/// `keyring::Entry`: a handle on one keyring item.
#[verifier::external_type_specification]
#[verifier::external_body]
pub struct ExKeyringEntry(Entry);

/// A handle on the keyring item for `user` under `service`. Only
/// `entry_new` builds one.
pub struct KeyringItem {
    entry: Entry,
    service: String,
    user: String,
}

impl KeyringItem {
    /// The service the item is filed under.
    pub closed spec fn service(&self) -> Seq<char> {
        self.service@
    }

    /// The user the item belongs to.
    pub closed spec fn user(&self) -> Seq<char> {
        self.user@
    }
}

/// How reading a secret from the keyring failed.
pub enum SecretLookupFailure {
    /// The keyring has no item for this service and user.
    NoEntry,
    /// Any other keyring failure.
    Other(KeyringError),
}

/// Calls `keyring::Entry::new(service, user)`: a handle on the item for
/// `user` under `service`, or the error of the keyring's credential
/// builder. Whether it succeeds depends on that builder and the platform,
/// so only what a handle is made for is stated.
#[verifier::external_body]
pub(crate) fn entry_new(service: &str, user: &str) -> (r: Result<KeyringItem, KeyringError>)
    ensures
        r matches Ok(i) ==> i.service() == service@ && i.user() == user@,
{
    match Entry::new(service, user) {
        Ok(entry) => Ok(KeyringItem { entry, service: service.to_string(), user: user.to_string() }),
        Err(e) => Err(e),
    }
}

/// Calls `keyring::Entry::get_password`, telling `keyring::Error::NoEntry`
/// apart from every other error. The stored secret depends on the OS
/// keyring, so nothing is stated of it.
#[verifier::external_body]
pub(crate) fn entry_get_password(item: &KeyringItem) -> (r: Result<String, SecretLookupFailure>) {
    match item.entry.get_password() {
        Ok(p) => Ok(p),
        Err(KeyringError::NoEntry) => Err(SecretLookupFailure::NoEntry),
        Err(e) => Err(SecretLookupFailure::Other(e)),
    }
}

/// A write the keyring accepted: the service and user of the item written
/// and the secret handed to it. Only `entry_set_password` makes one.
pub struct SecretWritten {
    written: Ghost<(Seq<char>, Seq<char>, Seq<char>)>,
}

impl SecretWritten {
    /// The service of the item written.
    pub closed spec fn service(&self) -> Seq<char> {
        self.written@.0
    }

    /// The user of the item written.
    pub closed spec fn user(&self) -> Seq<char> {
        self.written@.1
    }

    /// The secret handed to the keyring.
    pub closed spec fn secret(&self) -> Seq<char> {
        self.written@.2
    }
}

/// Calls `keyring::Entry::set_password` on the item, handing it
/// `password`; when the keyring accepts it, the write is recorded.
/// Whether the platform keyring accepts the secret is not stated.
#[verifier::external_body]
pub(crate) fn entry_set_password(item: &KeyringItem, password: &str) -> (r: Result<SecretWritten, KeyringError>)
    ensures
        r matches Ok(w) ==> w.service() == item.service() && w.user() == item.user() && w.secret() == password@,
{
    match item.entry.set_password(password) {
        Ok(()) => Ok(SecretWritten { written: Ghost((item.service(), item.user(), password@)) }),
        Err(e) => Err(e),
    }
}

} // verus!
