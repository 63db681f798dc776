//! The ciphers that seal cached records.
//!
//! A sealed record is a nonce of twelve bytes followed by the ciphertext
//! with its tag, so the ciphers offered here are those that take a nonce of
//! that size: AES-256-GCM, ChaCha20-Poly1305 and AES-256-GCM-SIV.

use crate::error::CryptoError;
use crate::traits::{decrypt_generic, decrypted, encrypt_generic, encrypted, NONCE_SIZE};
use aes_gcm::aead::Aead;
use aes_gcm::aead::KeyInit;
use vstd::prelude::*;

verus! {

/// The number of bytes of a key of each cipher offered here.
pub const KEY_SIZE: usize = 32;

/// The number of bytes that each cipher offered here adds to a plaintext.
pub const TAG_SIZE: usize = 16;

/// What `Aes256Gcm::encrypt` returns: the ciphertext with its tag, or
/// nothing where the call fails.
pub uninterp spec fn aes_gcm_sealed(key: Seq<u8>, nonce: Seq<u8>, plaintext: Seq<u8>) -> Option<
    Seq<u8>,
>;

/// What `Aes256Gcm::decrypt` returns: the plaintext, or nothing where the
/// call fails.
pub uninterp spec fn aes_gcm_opened(key: Seq<u8>, nonce: Seq<u8>, sealed: Seq<u8>) -> Option<
    Seq<u8>,
>;

/// What `ChaCha20Poly1305::encrypt` returns: the ciphertext with its tag, or
/// nothing where the call fails.
pub uninterp spec fn chacha_sealed(key: Seq<u8>, nonce: Seq<u8>, plaintext: Seq<u8>) -> Option<
    Seq<u8>,
>;

/// What `ChaCha20Poly1305::decrypt` returns: the plaintext, or nothing where
/// the call fails.
pub uninterp spec fn chacha_opened(key: Seq<u8>, nonce: Seq<u8>, sealed: Seq<u8>) -> Option<
    Seq<u8>,
>;

/// What `Aes256GcmSiv::encrypt` returns: the ciphertext with its tag, or
/// nothing where the call fails.
pub uninterp spec fn aes_gcm_siv_sealed(
    key: Seq<u8>,
    nonce: Seq<u8>,
    plaintext: Seq<u8>,
) -> Option<Seq<u8>>;

/// What `Aes256GcmSiv::decrypt` returns: the plaintext, or nothing where the
/// call fails.
pub uninterp spec fn aes_gcm_siv_opened(key: Seq<u8>, nonce: Seq<u8>, sealed: Seq<u8>) -> Option<
    Seq<u8>,
>;

/// Calls `Aes256Gcm::encrypt` with a cipher made from `key` by
/// `new_from_slice`. The result is a function of the three arguments. On
/// success it is the encrypted plaintext followed by a tag of 16 bytes, and
/// `Aes256Gcm::decrypt` under the same key and nonce gives the plaintext
/// back.
#[verifier::external_body]
fn aes_gcm_seal(key: &[u8], nonce: &[u8; 12], plaintext: &[u8]) -> (out: Option<Vec<u8>>)
    requires
        key@.len() == KEY_SIZE,
    ensures
        out matches Some(text) ==> aes_gcm_sealed(key@, nonce@, plaintext@) == Some(text@)
            && aes_gcm_opened(key@, nonce@, text@) == Some(plaintext@) && text@.len()
            == plaintext@.len() + TAG_SIZE,
        out is None ==> aes_gcm_sealed(key@, nonce@, plaintext@) is None,
{
    let cipher = aes_gcm::Aes256Gcm::new_from_slice(key).ok()?;
    cipher.encrypt(aes_gcm::Nonce::from_slice(nonce), plaintext).ok()
}

/// Calls `Aes256Gcm::decrypt` with a cipher made from `key` by
/// `new_from_slice`. The result is a function of the three arguments.
#[verifier::external_body]
fn aes_gcm_open(key: &[u8], nonce: &[u8; 12], sealed: &[u8]) -> (out: Option<Vec<u8>>)
    requires
        key@.len() == KEY_SIZE,
    ensures
        out matches Some(text) ==> aes_gcm_opened(key@, nonce@, sealed@) == Some(text@),
        out is None ==> aes_gcm_opened(key@, nonce@, sealed@) is None,
{
    let cipher = aes_gcm::Aes256Gcm::new_from_slice(key).ok()?;
    cipher.decrypt(aes_gcm::Nonce::from_slice(nonce), sealed).ok()
}

/// Calls `ChaCha20Poly1305::encrypt` with a cipher made from `key` by
/// `new_from_slice`. The result is a function of the three arguments. On
/// success it is the encrypted plaintext followed by a tag of 16 bytes, and
/// `ChaCha20Poly1305::decrypt` under the same key and nonce gives the
/// plaintext back.
#[verifier::external_body]
fn chacha_seal(key: &[u8], nonce: &[u8; 12], plaintext: &[u8]) -> (out: Option<Vec<u8>>)
    requires
        key@.len() == KEY_SIZE,
    ensures
        out matches Some(text) ==> chacha_sealed(key@, nonce@, plaintext@) == Some(text@)
            && chacha_opened(key@, nonce@, text@) == Some(plaintext@) && text@.len()
            == plaintext@.len() + TAG_SIZE,
        out is None ==> chacha_sealed(key@, nonce@, plaintext@) is None,
{
    let cipher = chacha20poly1305::ChaCha20Poly1305::new_from_slice(key).ok()?;
    cipher.encrypt(chacha20poly1305::Nonce::from_slice(nonce), plaintext).ok()
}

/// Calls `ChaCha20Poly1305::decrypt` with a cipher made from `key` by
/// `new_from_slice`. The result is a function of the three arguments.
#[verifier::external_body]
fn chacha_open(key: &[u8], nonce: &[u8; 12], sealed: &[u8]) -> (out: Option<Vec<u8>>)
    requires
        key@.len() == KEY_SIZE,
    ensures
        out matches Some(text) ==> chacha_opened(key@, nonce@, sealed@) == Some(text@),
        out is None ==> chacha_opened(key@, nonce@, sealed@) is None,
{
    let cipher = chacha20poly1305::ChaCha20Poly1305::new_from_slice(key).ok()?;
    cipher.decrypt(chacha20poly1305::Nonce::from_slice(nonce), sealed).ok()
}

/// Calls `Aes256GcmSiv::encrypt` with a cipher made from `key` by
/// `new_from_slice`. The result is a function of the three arguments. On
/// success it is the encrypted plaintext followed by a tag of 16 bytes, and
/// `Aes256GcmSiv::decrypt` under the same key and nonce gives the plaintext
/// back.
#[verifier::external_body]
fn aes_gcm_siv_seal(key: &[u8], nonce: &[u8; 12], plaintext: &[u8]) -> (out: Option<Vec<u8>>)
    requires
        key@.len() == KEY_SIZE,
    ensures
        out matches Some(text) ==> aes_gcm_siv_sealed(key@, nonce@, plaintext@) == Some(text@)
            && aes_gcm_siv_opened(key@, nonce@, text@) == Some(plaintext@) && text@.len()
            == plaintext@.len() + TAG_SIZE,
        out is None ==> aes_gcm_siv_sealed(key@, nonce@, plaintext@) is None,
{
    let cipher = aes_gcm_siv::Aes256GcmSiv::new_from_slice(key).ok()?;
    cipher.encrypt(aes_gcm_siv::Nonce::from_slice(nonce), plaintext).ok()
}

/// Calls `Aes256GcmSiv::decrypt` with a cipher made from `key` by
/// `new_from_slice`. The result is a function of the three arguments.
#[verifier::external_body]
fn aes_gcm_siv_open(key: &[u8], nonce: &[u8; 12], sealed: &[u8]) -> (out: Option<Vec<u8>>)
    requires
        key@.len() == KEY_SIZE,
    ensures
        out matches Some(text) ==> aes_gcm_siv_opened(key@, nonce@, sealed@) == Some(text@),
        out is None ==> aes_gcm_siv_opened(key@, nonce@, sealed@) is None,
{
    let cipher = aes_gcm_siv::Aes256GcmSiv::new_from_slice(key).ok()?;
    cipher.decrypt(aes_gcm_siv::Nonce::from_slice(nonce), sealed).ok()
}

/// AES-256-GCM.
#[derive(Debug, Copy, Clone)]
pub struct AESGCM;

/// ChaCha20-Poly1305.
#[derive(Debug, Copy, Clone)]
pub struct ChaCha20Poly;

/// AES-256-GCM-SIV.
#[derive(Debug, Copy, Clone)]
pub struct AESGCMSIV;

impl crate::traits::EncryptionMethod for AESGCM {
    open spec fn key_size() -> nat {
        KEY_SIZE as nat
    }

    open spec fn tag_size() -> nat {
        TAG_SIZE as nat
    }

    open spec fn sealed(key: Seq<u8>, nonce: Seq<u8>, plaintext: Seq<u8>) -> Option<Seq<u8>> {
        aes_gcm_sealed(key, nonce, plaintext)
    }

    open spec fn opened(key: Seq<u8>, nonce: Seq<u8>, sealed: Seq<u8>) -> Option<Seq<u8>> {
        aes_gcm_opened(key, nonce, sealed)
    }

    fn key_len(&self) -> (len: usize) {
        KEY_SIZE
    }

    fn seal(&self, key: &[u8], nonce: &[u8; 12], plaintext: &[u8]) -> (out: Option<Vec<u8>>) {
        aes_gcm_seal(key, nonce, plaintext)
    }

    fn open(&self, key: &[u8], nonce: &[u8; 12], sealed: &[u8]) -> (out: Option<Vec<u8>>) {
        aes_gcm_open(key, nonce, sealed)
    }
}

impl crate::traits::EncryptionMethod for ChaCha20Poly {
    open spec fn key_size() -> nat {
        KEY_SIZE as nat
    }

    open spec fn tag_size() -> nat {
        TAG_SIZE as nat
    }

    open spec fn sealed(key: Seq<u8>, nonce: Seq<u8>, plaintext: Seq<u8>) -> Option<Seq<u8>> {
        chacha_sealed(key, nonce, plaintext)
    }

    open spec fn opened(key: Seq<u8>, nonce: Seq<u8>, sealed: Seq<u8>) -> Option<Seq<u8>> {
        chacha_opened(key, nonce, sealed)
    }

    fn key_len(&self) -> (len: usize) {
        KEY_SIZE
    }

    fn seal(&self, key: &[u8], nonce: &[u8; 12], plaintext: &[u8]) -> (out: Option<Vec<u8>>) {
        chacha_seal(key, nonce, plaintext)
    }

    fn open(&self, key: &[u8], nonce: &[u8; 12], sealed: &[u8]) -> (out: Option<Vec<u8>>) {
        chacha_open(key, nonce, sealed)
    }
}

impl crate::traits::EncryptionMethod for AESGCMSIV {
    open spec fn key_size() -> nat {
        KEY_SIZE as nat
    }

    open spec fn tag_size() -> nat {
        TAG_SIZE as nat
    }

    open spec fn sealed(key: Seq<u8>, nonce: Seq<u8>, plaintext: Seq<u8>) -> Option<Seq<u8>> {
        aes_gcm_siv_sealed(key, nonce, plaintext)
    }

    open spec fn opened(key: Seq<u8>, nonce: Seq<u8>, sealed: Seq<u8>) -> Option<Seq<u8>> {
        aes_gcm_siv_opened(key, nonce, sealed)
    }

    fn key_len(&self) -> (len: usize) {
        KEY_SIZE
    }

    fn seal(&self, key: &[u8], nonce: &[u8; 12], plaintext: &[u8]) -> (out: Option<Vec<u8>>) {
        aes_gcm_siv_seal(key, nonce, plaintext)
    }

    fn open(&self, key: &[u8], nonce: &[u8; 12], sealed: &[u8]) -> (out: Option<Vec<u8>>) {
        aes_gcm_siv_open(key, nonce, sealed)
    }
}

impl AESGCM {
    /// Seals `data` under `key` with a fresh random nonce and hands out the
    /// record: the nonce, then the ciphertext with its tag. A key that is
    /// not of `KEY_SIZE` bytes is refused before anything else is tried.
    pub fn encrypt(&self, data: &[u8], key: &[u8]) -> (out: Result<Vec<u8>, CryptoError>)
        ensures
            key@.len() != KEY_SIZE ==> out == Err::<Vec<u8>, CryptoError>(CryptoError::KeyLength),
            out matches Ok(record) ==> encrypted::<AESGCM>(
                key@,
                record@.subrange(0, NONCE_SIZE as int),
                data@,
            ) == Ok::<Seq<u8>, CryptoError>(record@) && decrypted::<AESGCM>(key@, record@) == Ok::<
                Seq<u8>,
                CryptoError,
            >(data@) && record@.len() == NONCE_SIZE + data@.len() + TAG_SIZE,
            out matches Err(e) ==> if key@.len() != KEY_SIZE {
                e == CryptoError::KeyLength
            } else {
                e == CryptoError::Entropy || (e == CryptoError::Seal && exists|nonce: Seq<u8>|
                    nonce.len() == NONCE_SIZE && (#[trigger] encrypted::<AESGCM>(key@, nonce, data@))
                        is Err)
            },
    {
        encrypt_generic(self, data, key)
    }

    /// Seals `data` under `key` and the given nonce.
    pub fn encrypt_with_nonce(&self, data: &[u8], key: &[u8], nonce: &[u8; 12]) -> (out: Result<
        Vec<u8>,
        CryptoError,
    >)
        ensures
            out matches Ok(record) ==> encrypted::<AESGCM>(key@, nonce@, data@) == Ok::<
                Seq<u8>,
                CryptoError,
            >(record@) && decrypted::<AESGCM>(key@, record@) == Ok::<Seq<u8>, CryptoError>(data@)
                && record@.len() == NONCE_SIZE + data@.len() + TAG_SIZE,
            out matches Err(e) ==> encrypted::<AESGCM>(key@, nonce@, data@) == Err::<
                Seq<u8>,
                CryptoError,
            >(e),
    {
        crate::traits::encrypt_with_nonce(self, data, key, nonce)
    }

    /// Opens the record `data` under `key`. The first `NONCE_SIZE` bytes of
    /// the record are taken as its nonce.
    pub fn decrypt(&self, data: &[u8], key: &[u8]) -> (out: Result<Vec<u8>, CryptoError>)
        ensures
            out matches Ok(text) ==> decrypted::<AESGCM>(key@, data@) == Ok::<Seq<u8>, CryptoError>(
                text@,
            ),
            out matches Err(e) ==> decrypted::<AESGCM>(key@, data@) == Err::<Seq<u8>, CryptoError>(e),
    {
        decrypt_generic(self, data, key)
    }
}

impl ChaCha20Poly {
    /// Seals `data` under `key` with a fresh random nonce and hands out the
    /// record: the nonce, then the ciphertext with its tag. A key that is
    /// not of `KEY_SIZE` bytes is refused before anything else is tried.
    pub fn encrypt(&self, data: &[u8], key: &[u8]) -> (out: Result<Vec<u8>, CryptoError>)
        ensures
            key@.len() != KEY_SIZE ==> out == Err::<Vec<u8>, CryptoError>(CryptoError::KeyLength),
            out matches Ok(record) ==> encrypted::<ChaCha20Poly>(
                key@,
                record@.subrange(0, NONCE_SIZE as int),
                data@,
            ) == Ok::<Seq<u8>, CryptoError>(record@) && decrypted::<ChaCha20Poly>(key@, record@) == Ok::<
                Seq<u8>,
                CryptoError,
            >(data@) && record@.len() == NONCE_SIZE + data@.len() + TAG_SIZE,
            out matches Err(e) ==> if key@.len() != KEY_SIZE {
                e == CryptoError::KeyLength
            } else {
                e == CryptoError::Entropy || (e == CryptoError::Seal && exists|nonce: Seq<u8>|
                    nonce.len() == NONCE_SIZE && (#[trigger] encrypted::<ChaCha20Poly>(key@, nonce, data@))
                        is Err)
            },
    {
        encrypt_generic(self, data, key)
    }

    /// Seals `data` under `key` and the given nonce.
    pub fn encrypt_with_nonce(&self, data: &[u8], key: &[u8], nonce: &[u8; 12]) -> (out: Result<
        Vec<u8>,
        CryptoError,
    >)
        ensures
            out matches Ok(record) ==> encrypted::<ChaCha20Poly>(key@, nonce@, data@) == Ok::<
                Seq<u8>,
                CryptoError,
            >(record@) && decrypted::<ChaCha20Poly>(key@, record@) == Ok::<Seq<u8>, CryptoError>(data@)
                && record@.len() == NONCE_SIZE + data@.len() + TAG_SIZE,
            out matches Err(e) ==> encrypted::<ChaCha20Poly>(key@, nonce@, data@) == Err::<
                Seq<u8>,
                CryptoError,
            >(e),
    {
        crate::traits::encrypt_with_nonce(self, data, key, nonce)
    }

    /// Opens the record `data` under `key`. The first `NONCE_SIZE` bytes of
    /// the record are taken as its nonce.
    pub fn decrypt(&self, data: &[u8], key: &[u8]) -> (out: Result<Vec<u8>, CryptoError>)
        ensures
            out matches Ok(text) ==> decrypted::<ChaCha20Poly>(key@, data@) == Ok::<Seq<u8>, CryptoError>(
                text@,
            ),
            out matches Err(e) ==> decrypted::<ChaCha20Poly>(key@, data@) == Err::<Seq<u8>, CryptoError>(e),
    {
        decrypt_generic(self, data, key)
    }
}

impl AESGCMSIV {
    /// Seals `data` under `key` with a fresh random nonce and hands out the
    /// record: the nonce, then the ciphertext with its tag. A key that is
    /// not of `KEY_SIZE` bytes is refused before anything else is tried.
    pub fn encrypt(&self, data: &[u8], key: &[u8]) -> (out: Result<Vec<u8>, CryptoError>)
        ensures
            key@.len() != KEY_SIZE ==> out == Err::<Vec<u8>, CryptoError>(CryptoError::KeyLength),
            out matches Ok(record) ==> encrypted::<AESGCMSIV>(
                key@,
                record@.subrange(0, NONCE_SIZE as int),
                data@,
            ) == Ok::<Seq<u8>, CryptoError>(record@) && decrypted::<AESGCMSIV>(key@, record@) == Ok::<
                Seq<u8>,
                CryptoError,
            >(data@) && record@.len() == NONCE_SIZE + data@.len() + TAG_SIZE,
            out matches Err(e) ==> if key@.len() != KEY_SIZE {
                e == CryptoError::KeyLength
            } else {
                e == CryptoError::Entropy || (e == CryptoError::Seal && exists|nonce: Seq<u8>|
                    nonce.len() == NONCE_SIZE && (#[trigger] encrypted::<AESGCMSIV>(key@, nonce, data@))
                        is Err)
            },
    {
        encrypt_generic(self, data, key)
    }

    /// Seals `data` under `key` and the given nonce.
    pub fn encrypt_with_nonce(&self, data: &[u8], key: &[u8], nonce: &[u8; 12]) -> (out: Result<
        Vec<u8>,
        CryptoError,
    >)
        ensures
            out matches Ok(record) ==> encrypted::<AESGCMSIV>(key@, nonce@, data@) == Ok::<
                Seq<u8>,
                CryptoError,
            >(record@) && decrypted::<AESGCMSIV>(key@, record@) == Ok::<Seq<u8>, CryptoError>(data@)
                && record@.len() == NONCE_SIZE + data@.len() + TAG_SIZE,
            out matches Err(e) ==> encrypted::<AESGCMSIV>(key@, nonce@, data@) == Err::<
                Seq<u8>,
                CryptoError,
            >(e),
    {
        crate::traits::encrypt_with_nonce(self, data, key, nonce)
    }

    /// Opens the record `data` under `key`. The first `NONCE_SIZE` bytes of
    /// the record are taken as its nonce.
    pub fn decrypt(&self, data: &[u8], key: &[u8]) -> (out: Result<Vec<u8>, CryptoError>)
        ensures
            out matches Ok(text) ==> decrypted::<AESGCMSIV>(key@, data@) == Ok::<Seq<u8>, CryptoError>(
                text@,
            ),
            out matches Err(e) ==> decrypted::<AESGCMSIV>(key@, data@) == Err::<Seq<u8>, CryptoError>(e),
    {
        decrypt_generic(self, data, key)
    }
}

/// The cipher that a coordinator seals its records with.
#[derive(Debug, Clone, Copy, PartialEq, Eq, Structural)]
pub enum EncryptionMethod {
    /// AES-256-GCM.
    AesGcm,
    /// ChaCha20-Poly1305.
    Chacha20Poly1305,
    /// AES-256-GCM-SIV.
    AesGcmSiv,
}

impl EncryptionMethod {
    /// The record that sealing `data` under `key` and `nonce` gives.
    pub open spec fn encrypted(self, key: Seq<u8>, nonce: Seq<u8>, data: Seq<u8>) -> Result<
        Seq<u8>,
        CryptoError,
    > {
        match self {
            EncryptionMethod::AesGcm => crate::traits::encrypted::<AESGCM>(key, nonce, data),
            EncryptionMethod::Chacha20Poly1305 => crate::traits::encrypted::<ChaCha20Poly>(
                key,
                nonce,
                data,
            ),
            EncryptionMethod::AesGcmSiv => crate::traits::encrypted::<AESGCMSIV>(key, nonce, data),
        }
    }

    /// The plaintext that opening the record `data` under `key` gives.
    pub open spec fn decrypted(self, key: Seq<u8>, data: Seq<u8>) -> Result<Seq<u8>, CryptoError> {
        match self {
            EncryptionMethod::AesGcm => crate::traits::decrypted::<AESGCM>(key, data),
            EncryptionMethod::Chacha20Poly1305 => crate::traits::decrypted::<ChaCha20Poly>(
                key,
                data,
            ),
            EncryptionMethod::AesGcmSiv => crate::traits::decrypted::<AESGCMSIV>(key, data),
        }
    }

    /// Seals `data` under `key` with a fresh random nonce and hands out the
    /// record: the nonce, then the ciphertext with its tag. A key that is
    /// not of `KEY_SIZE` bytes is refused before anything else is tried.
    pub fn encrypt(&self, data: &[u8], key: &[u8]) -> (out: Result<Vec<u8>, CryptoError>)
        ensures
            key@.len() != KEY_SIZE ==> out == Err::<Vec<u8>, CryptoError>(CryptoError::KeyLength),
            out matches Ok(record) ==> self.encrypted(
                key@,
                record@.subrange(0, NONCE_SIZE as int),
                data@,
            ) == Ok::<Seq<u8>, CryptoError>(record@) && self.decrypted(key@, record@) == Ok::<
                Seq<u8>,
                CryptoError,
            >(data@) && record@.len() == NONCE_SIZE + data@.len() + TAG_SIZE,
            out matches Err(e) ==> if key@.len() != KEY_SIZE {
                e == CryptoError::KeyLength
            } else {
                e == CryptoError::Entropy || (e == CryptoError::Seal && exists|nonce: Seq<u8>|
                    nonce.len() == NONCE_SIZE && (#[trigger] self.encrypted(key@, nonce, data@))
                        is Err)
            },
    {
        match self {
            EncryptionMethod::AesGcm => {
                let out = AESGCM.encrypt(data, key);
                proof {
                    if out is Err && key@.len() == KEY_SIZE && out->Err_0 == CryptoError::Seal {
                        let nonce = choose|nonce: Seq<u8>|
                            nonce.len() == NONCE_SIZE && (#[trigger] encrypted::<AESGCM>(
                                key@,
                                nonce,
                                data@,
                            )) is Err;
                        assert(self.encrypted(key@, nonce, data@) is Err);
                    }
                }
                out
            },
            EncryptionMethod::Chacha20Poly1305 => {
                let out = ChaCha20Poly.encrypt(data, key);
                proof {
                    if out is Err && key@.len() == KEY_SIZE && out->Err_0 == CryptoError::Seal {
                        let nonce = choose|nonce: Seq<u8>|
                            nonce.len() == NONCE_SIZE && (#[trigger] encrypted::<ChaCha20Poly>(
                                key@,
                                nonce,
                                data@,
                            )) is Err;
                        assert(self.encrypted(key@, nonce, data@) is Err);
                    }
                }
                out
            },
            EncryptionMethod::AesGcmSiv => {
                let out = AESGCMSIV.encrypt(data, key);
                proof {
                    if out is Err && key@.len() == KEY_SIZE && out->Err_0 == CryptoError::Seal {
                        let nonce = choose|nonce: Seq<u8>|
                            nonce.len() == NONCE_SIZE && (#[trigger] encrypted::<AESGCMSIV>(
                                key@,
                                nonce,
                                data@,
                            )) is Err;
                        assert(self.encrypted(key@, nonce, data@) is Err);
                    }
                }
                out
            },
        }
    }

    /// Seals `data` under `key` and the given nonce.
    pub fn encrypt_with_nonce(&self, data: &[u8], key: &[u8], nonce: &[u8; 12]) -> (out: Result<
        Vec<u8>,
        CryptoError,
    >)
        ensures
            out matches Ok(record) ==> self.encrypted(key@, nonce@, data@) == Ok::<
                Seq<u8>,
                CryptoError,
            >(record@) && self.decrypted(key@, record@) == Ok::<Seq<u8>, CryptoError>(data@)
                && record@.len() == NONCE_SIZE + data@.len() + TAG_SIZE,
            out matches Err(e) ==> self.encrypted(key@, nonce@, data@) == Err::<
                Seq<u8>,
                CryptoError,
            >(e),
    {
        match self {
            EncryptionMethod::AesGcm => AESGCM.encrypt_with_nonce(data, key, nonce),
            EncryptionMethod::Chacha20Poly1305 => ChaCha20Poly.encrypt_with_nonce(data, key, nonce),
            EncryptionMethod::AesGcmSiv => AESGCMSIV.encrypt_with_nonce(data, key, nonce),
        }
    }

    /// Opens the record `data` under `key`. The first `NONCE_SIZE` bytes of
    /// the record are taken as its nonce.
    pub fn decrypt(&self, data: &[u8], key: &[u8]) -> (out: Result<Vec<u8>, CryptoError>)
        ensures
            out matches Ok(text) ==> self.decrypted(key@, data@) == Ok::<Seq<u8>, CryptoError>(
                text@,
            ),
            out matches Err(e) ==> self.decrypted(key@, data@) == Err::<Seq<u8>, CryptoError>(e),
    {
        match self {
            EncryptionMethod::AesGcm => AESGCM.decrypt(data, key),
            EncryptionMethod::Chacha20Poly1305 => ChaCha20Poly.decrypt(data, key),
            EncryptionMethod::AesGcmSiv => AESGCMSIV.decrypt(data, key),
        }
    }
}

} // verus!
