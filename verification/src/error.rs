//! The library's error type.

use std::io::Error as IoError;

use keyring::Error as KeyringError;
use vstd::prelude::*;

verus! {

/// `keyring::Error`, carried through unchanged.
#[verifier::external_type_specification]
#[verifier::external_body]
pub struct ExKeyringError(KeyringError);

/// `std::io::Error`, carried through unchanged.
#[verifier::external_type_specification]
#[verifier::external_body]
pub struct ExIoError(IoError);

/// Everything that can go wrong in the mail core.
#[derive(Debug)]
pub enum Error {
    Config(String),
    MissingSecret(String),
    Keyring(KeyringError),
    ImapConnect(String),
    Imap(String),
    Smtp(String),
    Tls(String),
    Parse(String),
    Io(IoError),
}

} // verus!
