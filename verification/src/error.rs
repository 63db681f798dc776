//! The errors of the engine.

use vstd::prelude::*;

verus! {

/// Why sealing or opening a cached record failed.
#[derive(Clone, Copy, Debug, PartialEq, Eq, Structural)]
pub enum CryptoError {
    /// The key does not have the length that the cipher takes.
    KeyLength,
    /// The operating system gave no random bytes for a nonce.
    Entropy,
    /// The cipher refused to seal the plaintext.
    Seal,
    /// The record is shorter than a nonce.
    Envelope,
    /// The record was not sealed under this key, or was altered since.
    Tag,
}

/// The kinds of failure that a caller of the engine can meet.
#[derive(Clone, Copy, Debug, PartialEq, Eq, Structural)]
pub enum FetchError {
    /// The configuration could not be read, decoded or validated.
    Config,
    /// The store failed, or holds a record that cannot be decoded.
    Store,
    /// A request or the reading of its response failed.
    Network,
    /// A record could not be sealed or opened.
    Crypto(CryptoError),
    /// A file or directory could not be written.
    Filesystem,
    /// No file name can be taken from a URL.
    Url,
}

impl CryptoError {
    /// The text of `message`.
    pub open spec fn message_spec(self) -> Seq<char> {
        match self {
            CryptoError::KeyLength => "the key has the wrong length for the cipher"@,
            CryptoError::Entropy => "no random bytes for a nonce"@,
            CryptoError::Seal => "the plaintext cannot be sealed"@,
            CryptoError::Envelope => "the record is shorter than a nonce"@,
            CryptoError::Tag => "the record fails authentication"@,
        }
    }

    /// A line of text for logs.
    pub fn message(&self) -> (text: &'static str)
        ensures
            text@ == self.message_spec(),
    {
        match self {
            CryptoError::KeyLength => "the key has the wrong length for the cipher",
            CryptoError::Entropy => "no random bytes for a nonce",
            CryptoError::Seal => "the plaintext cannot be sealed",
            CryptoError::Envelope => "the record is shorter than a nonce",
            CryptoError::Tag => "the record fails authentication",
        }
    }
}

impl FetchError {
    /// A line of text for logs.
    pub fn message(&self) -> (text: &'static str)
        ensures
            text@ == match *self {
                FetchError::Config => "configuration error"@,
                FetchError::Store => "store error"@,
                FetchError::Network => "network error"@,
                FetchError::Crypto(e) => e.message_spec(),
                FetchError::Filesystem => "filesystem error"@,
                FetchError::Url => "the URL names no file"@,
            },
    {
        match self {
            FetchError::Config => "configuration error",
            FetchError::Store => "store error",
            FetchError::Network => "network error",
            FetchError::Crypto(e) => e.message(),
            FetchError::Filesystem => "filesystem error",
            FetchError::Url => "the URL names no file",
        }
    }
}

} // verus!
