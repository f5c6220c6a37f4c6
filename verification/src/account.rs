//! A configured account and its secret in the OS keyring. The config file
//! never stores the password.

use vstd::prelude::*;

use crate::config::AccountConfig;
use crate::error::Error;
use crate::keychain::{KeyringItem, SecretLookupFailure, SecretWritten, entry_get_password, entry_new, entry_set_password};

verus! {

/// The keyring service the client files its secrets under.
pub open spec fn keyring_service() -> Seq<char> {
    "email_client"@
}

/// A configured account plus the ability to fetch its secret from the OS
/// keyring.
#[derive(Debug)]
pub struct Account {
    pub config: AccountConfig,
}

impl Account {
    pub fn new(config: AccountConfig) -> (r: Self)
        ensures
            r.config == config,
    {
        Account { config }
    }

    /// The keyring item holding the account's secret: the one for the
    /// account's email under the service `email_client`.
    fn keyring_entry(&self) -> (r: Result<KeyringItem, Error>)
        ensures
            r matches Ok(i) ==> i.service() == keyring_service() && i.user() == self.config.email@,
            r matches Err(e) ==> e is Keyring,
    {
        let service = "email_client";
        proof {
            reveal_strlit("email_client");
        }
        match entry_new(service, self.config.email.as_str()) {
            Ok(e) => Ok(e),
            Err(e) => Err(Error::Keyring(e)),
        }
    }

    /// Reads the account's password from the OS keyring (the item of
    /// `keyring_entry`: the account's email under `email_client`). A keyring with
    /// no item for this account gives `Error::MissingSecret` naming the
    /// account's email; any other keyring failure gives `Error::Keyring`.
    pub fn password(&self) -> (r: Result<String, Error>)
        ensures
            r matches Err(e) ==> (e is Keyring || (e matches Error::MissingSecret(m) && m@
                == self.config.email@)),
    {
        let entry = self.keyring_entry()?;
        match entry_get_password(&entry) {
            Ok(p) => Ok(p),
            Err(SecretLookupFailure::NoEntry) => Err(Error::MissingSecret(self.config.email.clone())),
            Err(SecretLookupFailure::Other(e)) => Err(Error::Keyring(e)),
        }
    }

    /// Stores `password` as the account's secret in the OS keyring, in the
    /// item for the account's email under `email_client` (see
    /// `keyring_entry`), and gives back the record of that write; any
    /// keyring failure gives `Error::Keyring`.
    pub fn set_password(&self, password: &str) -> (r: Result<SecretWritten, Error>)
        ensures
            r matches Ok(w) ==> w.service() == keyring_service() && w.user() == self.config.email@
                && w.secret() == password@,
            r matches Err(e) ==> e is Keyring,
    {
        let entry = self.keyring_entry()?;
        match entry_set_password(&entry, password) {
            Ok(w) => Ok(w),
            Err(e) => Err(Error::Keyring(e)),
        }
    }
}

} // verus!
