//! The failures that vault operations report.

use vstd::prelude::*;

verus! {

/// Why a vault operation failed.
#[derive(Clone, Copy, Debug, PartialEq, Eq, Structural)]
pub enum Error {
    /// The master password is empty.
    InvalidPassword,
    /// The master password is longer than a key.
    PasswordTooLong,
    /// The master password does not match the stored digest.
    BadPassword,
    /// Encryption or authenticated decryption failed.
    CryptoError,
    /// No record is stored under the given id.
    NotFound,
    /// A stored record body cannot be read as a record.
    CorruptRecord,
    /// The store holds something that cannot be read, or refused a write.
    StoreError,
    /// An export envelope cannot be read.
    BadEnvelope,
    /// The operation needs a session key and the vault is locked.
    NotUnlocked,
}

impl Error {
    /// A short description for display.
    pub fn message(&self) -> (text: &'static str)
        ensures
            text@ == self.message_text(),
    {
        match self {
            Error::InvalidPassword => "the password is empty",
            Error::PasswordTooLong => "the password is longer than 32 bytes",
            Error::BadPassword => "the password does not match",
            Error::CryptoError => "encryption or decryption failed",
            Error::NotFound => "no such record",
            Error::CorruptRecord => "a stored record cannot be read",
            Error::StoreError => "the store cannot be read or written",
            Error::BadEnvelope => "the export envelope cannot be read",
            Error::NotUnlocked => "the vault is locked",
        }
    }

    /// The description that `message` returns.
    pub open spec fn message_text(&self) -> Seq<char> {
        match self {
            Error::InvalidPassword => "the password is empty"@,
            Error::PasswordTooLong => "the password is longer than 32 bytes"@,
            Error::BadPassword => "the password does not match"@,
            Error::CryptoError => "encryption or decryption failed"@,
            Error::NotFound => "no such record"@,
            Error::CorruptRecord => "a stored record cannot be read"@,
            Error::StoreError => "the store cannot be read or written"@,
            Error::BadEnvelope => "the export envelope cannot be read"@,
            Error::NotUnlocked => "the vault is locked"@,
        }
    }
}

} // verus!
